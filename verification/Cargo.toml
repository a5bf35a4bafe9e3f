[package]
name = "local_share"
version = "0.1.0"
edition = "2021"
publish = false

[dependencies]
anyhow = "*"
axum = { version = "*", features = ["multipart"] }
base64 = "=0.23.1"
bytes = "*"
clap = { version = "*", features = ["derive"] }
crc32fast = "=1.5.2"
futures = "*"
humansize = "=2.1.3"
local-ip-address = "*"
mdns-sd = "*"
mime_guess = "*"
miniz_oxide = "=0.9.1"
qrcode = { version = "=0.14.1", default-features = false }
serde = { version = "*", features = ["derive"] }
tokio = { version = "*", features = ["full"] }
tokio-util = { version = "*", features = ["io", "compat"] }
tower-http = { version = "*", features = ["fs"] }

[dev-dependencies]
zip = { version = "=8.6.0", default-features = false, features = ["deflate"] }
