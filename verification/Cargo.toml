[package]
name = "logic_paint"
version = "0.1.0"
edition = "2021"
publish = false

[dependencies]
arrayvec = "0.7"
smallvec = "1"
brotli = "*"
bincode = { version = "2", features = ["serde"] }
serde = { version = "1", features = ["derive"] }
base64 = "0.22"
