[package]
name = "tictactoe_agent"
version = "0.1.0"
edition = "2021"
publish = false

[dependencies]
hashbrown = "0.14"
rand = "0.8"
