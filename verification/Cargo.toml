[package]
name = "tegata"
version = "0.1.0"
edition = "2021"
publish = false

[dependencies]
age = "=0.11.5"
base64 = "=0.22.1"
clap = { version = "=4.6.7", features = ["derive"] }
data-encoding = "=2.11.1"
hmac = "=0.13.0"
libc = "=0.2.191"
serde = { version = "=1.0.229", features = ["derive"] }
serde_json = "=1.0.154"
sha1 = "=0.11.0"
sha2 = "=0.11.1"
tokio = { version = "=1.54.1", features = ["full"] }
toml = "=1.1.8"
uuid = { version = "=1.29.0", features = ["v4"] }
zeroize = "=1.9.1"
windows-service = "0.8"
windows-sys = { version = "0.61", features = ["Win32_Foundation", "Win32_NetworkManagement_IpHelper", "Win32_NetworkManagement_Ndis", "Win32_Networking_WinSock", "Win32_Security", "Win32_Security_Authorization", "Win32_Security_Cryptography", "Win32_System_Console", "Win32_System_Pipes", "Win32_System_SystemServices", "Win32_System_Threading"] }
