[package]
name = "ragescanner"
version = "0.1.0"
edition = "2021"
publish = false

[dependencies]
crossbeam-channel = "0.5"
crossterm = { version = "0.28", features = ["event-stream"] }
dns-lookup = "2"
futures = "0.3"
lazy_static = "1"
log = "0.4"
mac_oui = { version = "0.4", features = ["with-db"] }
native-windows-derive = "1.0"
native-windows-gui = "1.0"
ratatui = "0.29"
simplelog = "0.12"
tokio = { version = "1", features = ["full"] }
tokio-util = "0.7"
windows = { version = "0.52", features = ["Win32_Foundation", "Win32_NetworkManagement_IpHelper", "Win32_UI_WindowsAndMessaging"] }

[dev-dependencies]
rand = "0.8"
