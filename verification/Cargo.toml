[package]
name = "boardgame"
version = "0.1.0"
edition = "2021"
publish = false

[dependencies]
rand = "0.8"
serde = { version = "1", features = ["derive"] }
tokio = { version = "1", features = ["rt-multi-thread", "macros", "sync"] }
enfync = "*"
url = "2"
bevy_simplenet = { version = "*", default-features = false, features = ["client", "server"] }
