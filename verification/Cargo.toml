[package]
name = "proxypilot"
version = "0.1.0"
edition = "2021"
publish = false

[dependencies]
arc-swap = "1"
tokio = { version = "1", features = ["io-util", "macros", "net", "rt-multi-thread", "sync", "time"] }
tracing = "0.1"
tray-icon = { version = "0.19", default-features = false }
windows = { version = "0.58", features = [
    "Win32_Foundation",
    "Win32_Networking_WinHttp",
    "Win32_Security_Cryptography",
    "Win32_Security_Cryptography_Catalog",
    "Win32_Security_Cryptography_Sip",
    "Win32_Security_WinTrust",
    "Win32_System_Console",
    "Win32_System_DataExchange",
    "Win32_System_Memory",
    "Win32_System_Ole",
    "Win32_System_Threading",
    "Win32_UI_Shell",
    "Win32_UI_WindowsAndMessaging",
] }
