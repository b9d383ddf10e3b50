[package]
name = "archive_vfs"
version = "0.1.0"
edition = "2021"
publish = false

[dependencies]
zip = { version = "*", default-features = false, features = ["deflate"] }
tar = "*"
flate2 = "*"
bzip2 = "*"
xz2 = "*"
zstd = "*"
sevenz-rust = "*"
cab = "*"
rar = "*"
chrono = "*"
anyhow = "*"
serde = { version = "*", features = ["derive"] }
serde_json = "*"
axum = { version = "*", features = ["ws"] }
tokio = { version = "*", features = ["full"] }
futures-util = "*"
tower-http = { version = "*", features = ["cors"] }
tracing = "*"
tracing-subscriber = "*"
walkdir = "*"
base64 = "*"
libc = "*"
