[package]
name = "chumod_loader"
version = "0.1.0"
edition = "2021"
publish = false

[dependencies]
toml = "0.8"
once_cell = "1"
retour = "0.3"
windows-sys = { version = "0.59", features = ["Win32_Foundation", "Win32_System_LibraryLoader", "Win32_System_Memory", "Win32_System_Threading", "Win32_System_Console", "Win32_Storage_FileSystem", "Win32_System_Diagnostics_Debug", "Win32_System_Kernel", "Win32_Security", "Win32_Security_Cryptography", "Win32_System_ProcessStatus", "Win32_Graphics_Gdi", "Win32_UI_WindowsAndMessaging", "Win32_System_Registry", "Win32_UI_Shell", "Win32_System_SystemInformation"] }
