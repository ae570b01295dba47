[package]
name = "lgp_evolve"
version = "0.1.0"
edition = "2021"
publish = false

[dependencies]
rand = "0.8"
csv = "1"
serde = { version = "1", features = ["derive"] }
toml = "0.8"
ordered-float = "3"
pretty_env_logger = "0.5"
