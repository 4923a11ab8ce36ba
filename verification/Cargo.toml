[package]
name = "launchpad"
version = "0.1.0"
edition = "2021"
publish = false

[dependencies]
blake3 = { version = "1", features = ["pure"] }
rust-ini = "0.21"
image = { version = "0.25", default-features = false, features = ["png"] }
dunce = "1"
serde = { version = "1", features = ["derive"] }
serde_json = "1"
notify = "8"
window-vibrancy = "0.6"
windows = { version = "0.61", features = ["Win32_Foundation", "Win32_UI_Shell", "Win32_UI_Shell_Common", "Win32_System_Com", "Win32_Storage_FileSystem", "Win32_Graphics_Gdi", "Win32_UI_Controls", "Win32_UI_WindowsAndMessaging"] }
