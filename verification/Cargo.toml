[package]
name = "profile_router"
version = "0.1.0"
edition = "2021"
publish = false

[dependencies]
url = "2"
serde = { version = "1", features = ["derive"] }
serde_json = "1"
toml = "*"
winreg = "*"
windows-sys = { version = "*", features = ["Win32_Foundation", "Win32_System_Console", "Win32_System_SystemInformation"] }
