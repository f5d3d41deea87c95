[package]
name = "game_server"
version = "0.1.0"
edition = "2021"
publish = false

[dependencies]
actix = "0.13"
actix-web = "4"
actix-web-actors = "4"
chrono = "0.4"
env_logger = "0.11"
fastrand = "2"
uuid = { version = "1", features = ["v4"] }
