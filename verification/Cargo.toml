[package]
name = "gpxmat"
version = "0.1.0"
edition = "2021"
publish = false

[dependencies]
flate2 = "*"
hyper = "0.10"
multipart = { version = "*", features = ["client", "hyper"] }
regex = "*"
glob = "*"
