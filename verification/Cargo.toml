[package]
name = "p2p_ft"
version = "0.1.0"
edition = "2021"
publish = false

[dependencies]
rand = "0.8"
configparser = "3"
local-ip-address = "0.5"
mac_address = "1"
tokio = { version = "1", features = ["rt-multi-thread", "macros", "sync", "time"] }
tonic = "0.8"
unzip-n = "0.1"
