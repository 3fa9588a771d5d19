[package]
name = "convey"
version = "0.2.0"
edition = "2021"
publish = false

[dependencies]
crossbeam-channel = "0.5"
log = "0.4"
serde = { version = "1", features = ["derive"] }
serde_json = "1"
termcolor = "1"
