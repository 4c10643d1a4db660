[package]
name = "arcade_games"
version = "0.1.0"
edition = "2021"
publish = false

[dependencies]
ggez = "0.7"
rand = "0.8"
