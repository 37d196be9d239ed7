[package]
name = "vnc_server"
version = "0.1.0"
edition = "2021"
publish = false

[dependencies]
des = "0.8"
rand = "0.8"
