[package]
name = "financial_planning"
version = "0.1.0"
edition = "2021"
publish = false

[dependencies]
thousands = "0.2"
anyhow = "1"
serde = { version = "1", features = ["derive"] }
structopt = "0.3"
toml = "0.8"
