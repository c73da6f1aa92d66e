[package]
name = "grantable_io"
version = "0.1.0"
edition = "2021"
publish = false

[dependencies]
portable-atomic = "1"
maitake-sync = "0.2"
embedded-io-async = "*"

[dev-dependencies]
futures-executor = "0.3"
