[package]
name = "ggo_launcher"
version = "0.1.0"
edition = "2021"
publish = false

[dependencies]
base64 = "0.22"
sha2 = "0.10"
serde = { version = "1", features = ["derive"] }
serde_json = "1"
reqwest = { version = "0.12", default-features = false, features = ["json", "stream"] }
tokio = { version = "1", features = ["time", "fs", "net", "io-util", "rt", "macros"] }
futures-util = "0.3"
dirs = "5"
zip = { version = "2", default-features = false, features = ["deflate"] }
rfd = "0.15"
windows-sys = { version = "0.59", features = ["Win32_Foundation", "Win32_Security", "Win32_Security_Cryptography", "Win32_Security_Authorization", "Win32_UI_WindowsAndMessaging", "Win32_UI_Shell", "Win32_UI_HiDpi", "Win32_System_Threading", "Win32_System_Pipes", "Win32_Graphics_Gdi", "Win32_Storage_FileSystem"] }
