[package]
name = "chesspoker"
version = "0.1.0"
edition = "2021"
publish = false

[dependencies]
rand = "=0.7.3"
rs_poker = { version = "=1.0.0", default-features = false }
serde = { version = "=1.0.229", features = ["derive"] }
serde_json = "=1.0.154"
orthogonal-rotation = "=0.0.10"
tungstenite = "0.13"
