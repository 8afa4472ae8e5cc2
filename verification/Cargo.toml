[package]
name = "dsh_xlink"
version = "0.1.0"
edition = "2021"
publish = false

[dependencies]
flate2 = "1"
libc = "0.2"
serde = { version = "1", features = ["derive"] }
serde_json = "1"
serde_yaml = "0.9"
tar = "0.4"
thiserror = "2"
time = { version = "0.3", features = ["local-offset"] }
tokio = { version = "1", features = ["time"] }
ureq = "3"
url = "2"
