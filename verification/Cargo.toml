[package]
name = "cbsub"
version = "1.0.0"
edition = "2021"
publish = false

[dependencies]
clap = { version = "3.2", default-features = false, features = ["std"] }

[dev-dependencies]
regex = "1"
