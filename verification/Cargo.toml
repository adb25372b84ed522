[package]
name = "lovm2"
version = "0.1.0"
edition = "2021"
publish = false

[dependencies]
regex = "1"
serde = { version = "1", features = ["derive"] }
syn = { version = "1", features = ["full", "extra-traits"] }
quote = "1"
proc-macro2 = "1"
dirs = "*"
libloading = "*"
tiny_http = "*"
curl = "*"
