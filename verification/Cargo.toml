[package]
name = "termchat"
version = "0.1.0"
edition = "2021"
publish = false

[dependencies]
rand = "0.8"
tokio = { version = "1", features = ["full"] }
russh = "0.44"
russh-keys = "0.44"
serde = { version = "1", features = ["derive"] }
bincode = "1"
async-trait = "0.1"
ed25519-dalek = "2"
