[package]
name = "overseer"
version = "0.1.0"
edition = "2021"
publish = false

[dependencies]
aes = "0.8"
arc-swap = "1"
base64 = "0.22"
cbc = { version = "0.1", features = ["alloc"] }
flate2 = "1"
fnv = "1"
once_cell = "1"
retour = "0.3"
rmpv = "1"
serde = { version = "1", features = ["derive"] }
serde_json = "1"
sqlparser = "0.53"
windows-sys = { version = "0.59", features = ["Win32_Foundation", "Win32_System_SystemInformation", "Win32_UI_WindowsAndMessaging", "Win32_System_LibraryLoader"] }
