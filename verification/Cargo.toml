[package]
name = "rmw_zenoh_rs"
version = "0.1.0"
edition = "2021"
publish = false

[dependencies]
sha2 = "0.10"
zenoh = { version = "*", default-features = false }
zenoh-ext = { version = "*", default-features = false, features = ["unstable"] }
ament_rs = "*"
get_if_addrs = "*"
