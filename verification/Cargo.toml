[package]
name = "astral_rust_core"
version = "0.1.0"
edition = "2021"
publish = false

[dependencies]
uuid = "1"
tokio = { version = "1", features = ["rt-multi-thread", "net", "time", "sync", "macros"] }
tokio-util = "0.7"
socket2 = { version = "0.5", features = ["all"] }
local-ip-address = "0.6"
lazy_static = "1"
windows = { version = "0.58", features = ["Win32_Foundation", "Win32_NetworkManagement_IpHelper", "Win32_Networking_WinSock", "Win32_System_Diagnostics_ToolHelp", "Win32_System_Threading", "Win32_UI_WindowsAndMessaging"] }
