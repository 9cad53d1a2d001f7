[package]
name = "barley"
version = "0.1.0"
edition = "2021"
publish = false

[dependencies]
uuid = { version = "1", features = ["v4"] }
tokio = { version = "1", features = ["full"] }
colored = "*"
clap = { version = "4", features = ["derive"] }
serde = { version = "1", features = ["derive"] }
toml = "*"
cargo_toml = "*"
ureq = "2"
git2 = { version = "*", default-features = false }
