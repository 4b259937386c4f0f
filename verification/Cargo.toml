[package]
name = "falling_sand_contact"
version = "0.1.0"
edition = "2021"
publish = false

[dependencies]
bevy = { version = "0.17", default-features = false, features = ["std"] }
bevy_rand = { version = "0.12", features = ["wyrand"] }
serde = { version = "1", features = ["derive"] }
