[package]
name = "fetchy"
version = "0.1.0"
edition = "2021"
publish = false

[dependencies]
regex = "*"
flate2 = "*"
xz2 = "*"
tar = "*"
zip = { version = "*", default-features = false, features = ["deflate"] }
serde = { version = "*", features = ["derive"] }
serde_json = "*"
clap = { version = "*", features = ["derive"] }
dirs = "*"
reqwest = { version = "*", default-features = false, features = ["blocking", "json"] }
tempfile = "*"
