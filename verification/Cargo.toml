[package]
name = "layerfetch"
version = "0.1.0"
edition = "2021"
publish = false

[dependencies]
anyhow = "*"
async-compression = { version = "*", default-features = false, features = ["tokio", "gzip"] }
futures = "*"
reqwest = { version = "*", default-features = false, features = ["json"] }
serde = { version = "*", features = ["derive"] }
tempfile = "*"
tokio = { version = "*", default-features = false, features = ["rt", "io-util"] }
tokio-util = { version = "*", default-features = false, features = ["io"] }
unshare = "*"
