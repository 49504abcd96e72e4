[package]
name = "task_masker"
version = "0.1.0"
edition = "2021"
publish = false

[dependencies]
rand = "0.8"
bevy = { version = "0.14", default-features = false, features = ["bevy_state"] }
tiled = "0.12"
dunce = "1"
sqlite = "0.36"
thiserror = "1"
tokio = { version = "1", features = ["rt-multi-thread", "sync", "macros"] }
twitch-irc = "5"
