[package]
name = "uninstall"
version = "0.19.0"
edition = "2021"
publish = false

[dependencies]
unicode-normalization = "0.1"
sha2 = "0.10"
hex = "0.4"
serde = { version = "1", features = ["derive"] }
serde_json = "1"
regex = "1"
clap = { version = "4", features = ["derive"] }
flate2 = "1"
tar = "0.4"
quick-xml = "*"
rayon = "1"
walkdir = "2"
tempfile = "3"
wait-timeout = "0.2"
libc = "0.2"
rustix = { version = "*", features = ["fs", "process"] }
