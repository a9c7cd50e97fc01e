[package]
name = "sqlite_ip"
version = "0.1.0"
edition = "2021"

[dependencies]
sqlite-loadable = "0.0.6-alpha.1"
