[package]
name = "hivex_rs"
version = "0.1.0"
edition = "2021"
publish = false

[dependencies]
chrono = { version = "0.4", default-features = false, features = ["std"] }
errno = "0.3"
structopt = "0.3"
