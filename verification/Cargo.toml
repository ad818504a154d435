[package]
name = "cpanel_nas_backup"
version = "0.1.0"
edition = "2021"
publish = false

[dependencies]
anyhow = "=1.0.104"
base64 = "=0.22.1"
chrono = "=0.4.45"
flate2 = "=1.1.10"
ftp = "=3.0.1"
minreq = { version = "=2.14.1", features = ["https"] }
serde = { version = "=1.0.229", features = ["derive"] }
serde_json = "=1.0.154"
sha2 = "=0.11.1"
tar = "=0.4.46"
urlencoding = "=2.1.3"
