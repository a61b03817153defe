[package]
name = "lmc"
version = "0.1.0"
edition = "2021"
publish = false

[dependencies]
regex = "1"
colored = "2"
clap = { version = "4", features = ["derive"] }
thiserror = "1"
