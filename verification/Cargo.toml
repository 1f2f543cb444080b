[package]
name = "blk_config"
version = "0.1.0"
edition = "2021"
publish = false

[dependencies]
nom = "7"
clap = { version = "4", features = ["derive"] }
