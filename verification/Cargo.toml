[package]
name = "elfdeps"
version = "0.1.0"
edition = "2021"
publish = false

[dependencies]
clap = { version = "3", features = ["derive"] }
object = { version = "0.28", default-features = false, features = ["read_core", "elf", "std"] }
tracing = "0.1"
tracing-subscriber = "0.3"
