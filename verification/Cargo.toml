[package]
name = "servicetray"
version = "0.1.0"
edition = "2021"
publish = false

[dependencies]
clap = { version = "4", features = ["derive"] }
color-eyre = "*"
crossbeam-channel = "*"
notify = "*"
open = "*"
rust-i18n = "*"
serde = { version = "1", features = ["derive"] }
serde_json = "1"
sys-locale = "*"
tracing = "*"
tracing-appender = "*"
tracing-subscriber = { version = "*", features = ["env-filter"] }
tray-icon = "*"
winit = { version = "0.30", default-features = false, features = ["x11", "rwh_06"] }
windows = { version = "*", features = ["Win32_Foundation", "Win32_System_Console", "Win32_System_JobObjects", "Win32_System_Threading", "Win32_Security"] }
