[package]
name = "roust"
version = "0.1.0"
edition = "2021"
publish = false

[dependencies]
ipnetwork = "=0.21.1"
serde = { version = "=1.0.229", features = ["derive"] }
serde_json = "=1.0.154"
clap = { version = "=4.6.7", features = ["derive"] }
anyhow = "=1.0.104"
log = "=0.4.35"
env_logger = "=0.11.11"
ureq = "=2.12.1"
zip = { version = "=2.6.1", default-features = false, features = ["deflate"] }
ctrlc = "=3.5.2"
axum = "=0.8.9"
tokio = { version = "=1.54.1", features = ["rt-multi-thread", "macros", "net", "signal"] }
tower-http = { version = "=0.6.11", features = ["cors"] }
windows = { version = "=0.62.2", features = ["Win32_Foundation", "Win32_NetworkManagement_IpHelper", "Win32_NetworkManagement_Ndis", "Win32_NetworkManagement_WindowsFilteringPlatform", "Win32_Networking_WinSock", "Win32_Security", "Win32_System_Diagnostics_ToolHelp", "Win32_System_IO", "Win32_System_Rpc", "Win32_System_Threading", "Win32_UI_Shell", "Win32_UI_WindowsAndMessaging"] }
windows-service = "=0.8.1"
