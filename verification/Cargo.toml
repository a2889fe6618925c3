[package]
name = "maki_jobs"
version = "0.1.0"
edition = "2021"
publish = false

[dependencies]
flume = "*"
futures-lite = "*"
libc = "0.2"
mlua = { version = "*", features = ["lua54", "vendored", "async"] }
smol = "*"
