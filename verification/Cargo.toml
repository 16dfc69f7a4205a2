[package]
name = "microvisor"
version = "0.2.0"
edition = "2021"
publish = false

[dependencies]
anyhow = "=1.0.104"
directories = "*"
libc = "=0.2.191"
serde = { version = "=1.0.229", features = ["derive"] }
serde_json = "=1.0.154"
serde-saphyr = "=2.0.0"
tempfile = "=3.27.0"
uuid = { version = "=1.29.0", features = ["v4", "serde"] }
