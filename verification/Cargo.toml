[package]
name = "codexbot"
version = "0.2.0"
edition = "2021"
rust-version = "1.85"
publish = false

[dependencies]
anyhow = "=1.0.104"
base64 = "=0.22.1"
chrono = "=0.4.45"
clap = { version = "=4.6.7", features = ["derive"] }
fs2 = "=0.4.3"
futures-util = "=0.3.34"
hex = "=0.4.3"
rand = "=0.8.8"
reqwest = { version = "=0.12.28", default-features = false, features = ["json", "rustls-tls"] }
rpassword = "=7.5.4"
rusqlite = { version = "=0.32.1", features = ["bundled"] }
serde = { version = "=1.0.229", features = ["derive"] }
serde_json = "=1.0.154"
sha2 = "=0.10.9"
sysinfo = "=0.33.1"
thiserror = "=2.0.21"
tokio = { version = "=1.54.1", features = ["full"] }
tokio-tungstenite = { version = "=0.26.2", features = ["rustls-tls-webpki-roots"] }
windows-sys = { version = "=0.61.2", features = ["Win32_Foundation", "Win32_Security_Credentials", "Win32_Security_Cryptography", "Win32_Storage_FileSystem", "Win32_System_Threading"] }
zeroize = "=1.9.1"
