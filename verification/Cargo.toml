[package]
name = "rewind_input"
version = "0.1.0"
edition = "2021"
publish = false

[dependencies]
futures = { version = "0.3", features = ["executor"] }
futures-io = "0.3"
pin-project-lite = "0.2"
