use chumod_loader::config_ini::{
    bool_text, config_bool_result, int_text, is_mod_enabled, parse_config_bool,
    set_current_config, set_current_manifest_path, with_config_path, ConfigIni, ManifestPath,
};
use chumod_loader::hot_reload::{
    begin_reload, begin_start, chosen_config, end_reload, file_stem, find_reload_target,
    is_reloading, mod_matches, mod_paths, normalize_name, reinsert_position, reload_all_result,
    stop, stop_monitor, ModRecord, ReloadFlag, ThreadFlags,
};
use chumod_loader::metadata::{
    is_loader_version_satisfied, min_version_from_export, parse_semver, should_load_metadata,
    ModMetadata,
};

#[test]
fn config_path_is_set_and_read() {
    let mut cfg = ConfigIni::new();
    assert_eq!(with_config_path(&cfg), None);
    set_current_config(&mut cfg, "C:\\mods\\config\\a.ini");
    assert_eq!(with_config_path(&cfg), Some("C:\\mods\\config\\a.ini"));
    set_current_config(&mut cfg, "");
    assert_eq!(with_config_path(&cfg), None);
}

#[test]
fn boolean_settings_read_and_write() {
    assert_eq!(parse_config_bool("true", 7), 1);
    assert_eq!(parse_config_bool("1", 7), 1);
    assert_eq!(parse_config_bool("yes", 7), 1);
    assert_eq!(parse_config_bool("false", 7), 0);
    assert_eq!(parse_config_bool("0", 7), 0);
    assert_eq!(parse_config_bool("no", 7), 0);
    assert_eq!(parse_config_bool("TRUE", 7), 7);
    assert_eq!(parse_config_bool("", 7), 7);
    assert_eq!(config_bool_result(0, "true", 5), 5);
    assert_eq!(config_bool_result(4, "true", 5), 1);
    assert_eq!(bool_text(3), "true");
    assert_eq!(bool_text(0), "false");
    assert_eq!(parse_config_bool(&bool_text(-1), 9), 1);
    assert_eq!(parse_config_bool(&bool_text(0), 9), 0);
    assert_eq!(int_text(-15), "-15");
}

#[test]
fn mods_ini_switches() {
    assert!(is_mod_enabled(b""));
    assert!(is_mod_enabled(b"1"));
    assert!(!is_mod_enabled(b"0"));
    assert!(!is_mod_enabled(b"000"));
    assert!(!is_mod_enabled(b"-0"));
    assert!(!is_mod_enabled(b"+00"));
    assert!(is_mod_enabled(b"+"));
    assert!(is_mod_enabled(b"0x"));
    assert!(is_mod_enabled(b" 0"));
    assert!(is_mod_enabled(b"off"));
}

#[test]
fn manifest_path_without_nul() {
    let mut m = ManifestPath { path: None };
    set_current_manifest_path(&mut m, Some("C:\\m.toml"));
    assert_eq!(m.path.as_deref(), Some("C:\\m.toml"));
    set_current_manifest_path(&mut m, Some("bad\0path"));
    assert_eq!(m.path, None);
    set_current_manifest_path(&mut m, Some("x"));
    set_current_manifest_path(&mut m, None);
    assert_eq!(m.path, None);
}

#[test]
fn reload_names_are_normalised() {
    assert_eq!(normalize_name(" Foo.DLL.dll "), "foo");
    assert_eq!(normalize_name("Bar.dll.dll"), "bar");
    assert_eq!(normalize_name("x.dll.DLL"), "x.dll");
    assert_eq!(normalize_name("  "), "");
    assert_eq!(file_stem("a.dll"), "a");
    assert_eq!(file_stem("a.DLL"), "a");
    assert_eq!(file_stem("a.Dll"), "a.Dll");
    assert_eq!(file_stem("a.dll.dll"), "a.dll");
}

fn record(name: &str, file: &str) -> ModRecord {
    ModRecord { name: name.to_string(), file_name: file.to_string(), full_path: format!("C:\\mods\\{file}") }
}

#[test]
fn reload_target_is_the_first_match() {
    let mods = vec![record("Alpha", "alpha_mod.dll"), record("Beta Mod", "beta.dll"), record("beta", "b2.dll")];
    assert!(mod_matches(&mods[0], "alpha"));
    assert!(mod_matches(&mods[0], "alpha_mod"));
    assert_eq!(find_reload_target(&mods, "ALPHA_MOD.dll"), Some(0));
    assert_eq!(find_reload_target(&mods, "beta"), Some(1));
    assert_eq!(find_reload_target(&mods, "b2"), Some(2));
    assert_eq!(find_reload_target(&mods, "gamma"), None);
}

#[test]
fn reload_flags() {
    let mut flag = ReloadFlag { in_progress: false };
    assert!(!is_reloading(&flag));
    assert!(begin_reload(&mut flag));
    assert!(is_reloading(&flag));
    assert!(!begin_reload(&mut flag));
    end_reload(&mut flag);
    assert!(!is_reloading(&flag));

    let mut monitor = ThreadFlags { started: false, running: false };
    assert!(begin_start(&mut monitor));
    assert!(monitor.running);
    assert!(!begin_start(&mut monitor));
    stop_monitor(&mut monitor);
    assert!(!monitor.started && !monitor.running);
    begin_start(&mut monitor);
    stop(&mut monitor);
    assert!(!monitor.started && !monitor.running);

    assert_eq!(reload_all_result(&vec![0, 0]), 0);
    assert_eq!(reload_all_result(&vec![0, -1, 0]), -1);
    assert_eq!(reload_all_result(&vec![]), 0);
    assert_eq!(reinsert_position(2, 5), 2);
    assert_eq!(reinsert_position(7, 5), 5);
}

#[test]
fn per_mod_paths() {
    let p = mod_paths("C:\\game", "demo.dll");
    assert_eq!(p.config_dir, "C:\\game\\mods\\config");
    assert_eq!(p.log_dir, "C:\\game\\mods\\log");
    assert_eq!(p.log_path, "C:\\game\\mods\\log\\demo.log");
    assert_eq!(p.toml_path, "C:\\game\\mods\\config\\demo.toml");
    assert_eq!(p.ini_path, "C:\\game\\mods\\config\\demo.ini");
    assert_eq!(p.manifest_path, "C:\\game\\mods\\manifest\\demo.toml");
    assert_eq!(chosen_config(&p, true), "C:\\game\\mods\\config\\demo.toml");
    assert_eq!(chosen_config(&p, false), "C:\\game\\mods\\config\\demo.ini");
}

#[test]
fn semver_components() {
    assert_eq!(parse_semver("1.2.3"), [1, 2, 3]);
    assert_eq!(parse_semver("2.10"), [2, 10, 0]);
    assert_eq!(parse_semver("1.x.3"), [1, 0, 3]);
    assert_eq!(parse_semver("1.2.3.4"), [1, 2, 3]);
    assert_eq!(parse_semver("v1.2"), [0, 2, 0]);
    assert_eq!(parse_semver("3rc1.0.7beta"), [3, 0, 7]);
    assert_eq!(parse_semver("4294967295.4294967296.1"), [4294967295, 0, 1]);
    assert_eq!(parse_semver(""), [0, 0, 0]);
}

#[test]
fn loader_version_gate() {
    assert!(is_loader_version_satisfied("1.0.0"));
    assert!(is_loader_version_satisfied("0.9.9"));
    assert!(is_loader_version_satisfied("1"));
    assert!(is_loader_version_satisfied(""));
    assert!(!is_loader_version_satisfied("1.0.1"));
    assert!(!is_loader_version_satisfied("1.1"));
    assert!(!is_loader_version_satisfied("2.0.0"));
    let none = ModMetadata::default();
    assert!(should_load_metadata("m", &none));
    let newer = ModMetadata { version: Some("1.0".to_string()), min_loader_version: Some("9.0".to_string()) };
    assert!(!should_load_metadata("m", &newer));
    let older = ModMetadata { version: None, min_loader_version: Some("0.5".to_string()) };
    assert!(should_load_metadata("m", &older));
}

#[test]
fn blank_minimum_versions_are_dropped() {
    assert_eq!(min_version_from_export(None), None);
    assert_eq!(min_version_from_export(Some("  ".to_string())), None);
    assert_eq!(min_version_from_export(Some(" 1.2 ".to_string())), Some(" 1.2 ".to_string()));
}
