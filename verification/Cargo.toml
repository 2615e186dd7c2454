[package]
name = "just_lang"
version = "0.1.0"
edition = "2021"
publish = false

[dependencies]
clap = "2"
colored = "1"
log = { version = "0.4", features = ["std"] }
