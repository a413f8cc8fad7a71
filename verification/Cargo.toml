[package]
name = "tcp_core"
version = "0.1.0"
edition = "2021"
publish = false

[dependencies]
tun-tap = "*"

[dev-dependencies]
etherparse = "*"
