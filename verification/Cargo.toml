[package]
name = "ossfs"
version = "0.1.0"
edition = "2021"
publish = false

[dependencies]
anyhow = "=1.0.104"
aws-config = "=1.13.0"
aws-sdk-s3 = "=1.157.0"
aws-smithy-runtime-api = "=1.19.2"
aws-smithy-types = "=1.9.1"
base64 = "=0.22.1"
chrono = "=0.4.45"
fuser = { version = "=0.18.0", default-features = false }
libc = "=0.2.191"
md-5 = "=0.10.6"
serde = { version = "=1.0.229", features = ["derive"] }
serde_json = "=1.0.154"
tokio = { version = "=1.54.1", features = ["full"] }
tracing = "=0.1.44"
windows-sys = { version = "=0.61.2", features = ["Win32_Foundation", "Win32_Security", "Win32_Storage_FileSystem", "Win32_System_LibraryLoader", "Win32_System_Threading"] }
winfsp = "=0.13.2"
