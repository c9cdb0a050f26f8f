//! The logic of a mod loader for CHUNITHM, with contracts proved by Verus: the mod
//! load order, the entry-point hijack, PE and RTTI lookups, the mods' configuration,
//! services, hooks and Direct3D 9 callbacks, hot reload, logging and crash reports.
pub mod bytes;
pub mod text;
pub mod dependency;
pub mod config_toml;
pub mod memory;
pub mod early_patch;
pub mod rtti;
pub mod hijack;
pub mod crash_zip;
pub mod fmt;
pub mod metadata;
pub mod ipc;
pub mod config_ini;
pub mod d3d9;
pub mod proxy;
pub mod hot_reload;
pub mod pe;
pub mod crash_report;
pub mod log;
pub mod iat;
pub mod hooks;
pub mod lifecycle;
