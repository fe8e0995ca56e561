[package]
name = "board_store"
version = "0.1.0"
edition = "2021"
publish = false

[dependencies]
chrono = "0.4"
r2d2 = "0.8"
r2d2_postgres = "0.18"
