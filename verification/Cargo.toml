[package]
name = "netlink"
version = "0.1.0"
edition = "2021"
publish = false

[dependencies]
byteorder = "1"
bytes = "1"
libc = "0.2"
pnet = "0.35"
tokio = { version = "1", features = ["net", "rt"] }
tokio-util = { version = "0.7", features = ["codec"] }
