[package]
name = "room_broker"
version = "0.1.0"
edition = "2021"
publish = false

[dependencies]
uuid = { version = "1", features = ["v4"] }
actix-web = { version = "4", default-features = false, features = ["macros"] }
actix-ws = "*"
futures = "0.3"
serde = { version = "1", features = ["derive"] }
env_logger = "*"
log = "0.4"
