[package]
name = "quotis"
version = "0.1.0"
edition = "2021"
publish = false

[dependencies]
serde = { version = "1", features = ["derive"] }
serde_json = "1"
ureq = "3"
rusqlite = { version = "*", features = ["bundled"] }
notify = "*"
windows-sys = { version = "*", features = ["Win32_Foundation", "Win32_Graphics_Gdi", "Win32_UI_WindowsAndMessaging"] }
