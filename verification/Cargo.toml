[package]
name = "cscp_connector"
version = "0.3.0"
edition = "2021"
publish = false

[dependencies]
libc = "0.2"
clap = { version = "4", features = ["derive"] }
