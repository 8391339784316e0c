[package]
name = "ankiserver"
version = "0.1.0"
edition = "2021"
publish = false

[dependencies]
mslnk = "0.1.8"
winreg = "0.10"
async-std = "1"
actix-web = "4"
thiserror = "1"
toml = "0.8"
windows = { version = "0.48", features = ["Win32_Foundation", "Win32_UI_Shell", "Win32_UI_WindowsAndMessaging"] }
