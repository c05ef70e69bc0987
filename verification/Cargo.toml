[package]
name = "yrjo_chess_engine"
version = "0.1.0"
edition = "2021"
publish = false

[dependencies]
chess = "*"
rand = "*"
clap = { version = "4", features = ["derive"] }
serde = { version = "1", features = ["derive"] }
serde_json = "1"
