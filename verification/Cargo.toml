[package]
name = "zwl_gs"
version = "0.1.0"
edition = "2021"
publish = false

[dependencies]
min_max_traits = "0.1.0"
clap = { version = "4", features = ["derive"] }
dialoguer = "0.12"
serde = { version = "1", features = ["derive"] }
