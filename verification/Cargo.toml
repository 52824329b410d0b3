[package]
name = "kmf"
version = "0.1.0"
edition = "2021"
publish = false

[dependencies]
async_zip = { version = "*", features = ["tokio", "deflate"] }
chrono = "*"
clap = { version = "*", features = ["derive"] }
directories = "*"
futures = "*"
headers = "*"
hex = "*"
reqwest = { version = "*", features = ["stream"] }
sanitize-filename = "*"
serde = { version = "*", features = ["derive"] }
sha2 = "*"
temp-dir = "*"
thiserror = "*"
tokio = { version = "*", features = ["fs", "io-util", "rt", "macros", "rt-multi-thread"] }
tokio-util = { version = "*", features = ["io", "compat"] }
toml = "*"
url = "*"
