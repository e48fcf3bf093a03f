[package]
name = "devices"
version = "0.1.0"
edition = "2021"
publish = false

[dependencies]
chrono = "*"
local-ip-address = "*"
log = "*"
mdns-sd = "*"
rand = "*"
uuid = { version = "*", features = ["v4"] }
