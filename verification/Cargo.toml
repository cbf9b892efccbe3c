[package]
name = "snake_game"
version = "0.1.0"
edition = "2021"
publish = false

[dependencies]
rand = "=0.8.8"
k_board = { version = "=1.3.1", features = ["lower_letter", "upper_letter"] }
