[package]
name = "rusteam"
version = "0.5.1"
edition = "2021"
publish = false

[dependencies]
anyhow = "=1.0.104"
directories = "=6.0.0"
paw = "=1.0.0"
serde = { version = "=1.0.229", features = ["derive"] }
snafu = "=0.9.2"
structopt = { version = "=0.3.26", features = ["paw"] }
thiserror = "=2.0.21"
toml = "=1.1.7"
