[package]
name = "nls"
version = "0.0.1"
edition = "2021"
publish = false

[dependencies]
chrono = "0.4"
clap = { version = "4", features = ["derive"] }
colored = "2"
libc = "0.2"
users = "0.11"
