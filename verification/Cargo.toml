[package]
name = "game_prove"
version = "0.1.0"
edition = "2021"
publish = false

[dependencies]
hex = "=0.4.3"
ethers = { version = "=2.0.14", default-features = false }
serde = { version = "=1.0.229", features = ["derive"] }
serde_json = "=1.0.154"
clap = { version = "=4.6.7", features = ["derive"] }
tokio = { version = "=1.54.1", features = ["macros", "rt-multi-thread"] }
anyhow = "=1.0.104"
bincode = "=1.3.3"
dialoguer = "=0.11.0"
rpassword = "=7.5.4"
sp1-zkvm = { version = "=6.10.0", default-features = false, features = ["lib"] }
