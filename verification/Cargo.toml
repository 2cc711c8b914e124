[package]
name = "mdns_lite"
version = "0.1.0"
edition = "2021"
publish = false

[dependencies]
heapless = "0.8"
log = "0.4"
mio = { version = "1", features = ["os-poll", "net"] }
