[package]
name = "rumwebs_http"
version = "0.1.0"
edition = "2021"
publish = false

[dependencies]
regex = "1"
log = "0.4"
mio = { version = "0.7", features = ["os-poll", "tcp"] }
rustls = "0.19"
config = "0.11"
simplelog = "0.10"
