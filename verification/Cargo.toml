[package]
name = "echo_server"
version = "0.1.0"
edition = "2021"
publish = false

[dependencies]
mio = "=0.6.23"
