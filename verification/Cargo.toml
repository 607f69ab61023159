[package]
name = "inkgraph"
version = "0.1.0"
edition = "2021"
publish = false

[dependencies]
anyhow = "1"
base64 = "0.22"
chrono = "0.4"
image = { version = "0.25", default-features = false, features = ["png", "jpeg", "bmp"] }
imageproc = { version = "0.25", default-features = false }
log = "0.4"
ndarray = "0.16"
ort = { version = "2.0.0-rc.9", default-features = false, features = ["load-dynamic", "ndarray"] }
serde = { version = "1", features = ["derive"] }
tokio = { version = "1", features = ["rt-multi-thread", "macros", "sync", "time"] }
uuid = { version = "1", features = ["v4"] }
