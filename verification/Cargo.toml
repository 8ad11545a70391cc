[package]
name = "redstone_rust"
version = "0.1.0"
edition = "2021"
publish = false

[dependencies]
bevy = { version = "=0.12.1", default-features = false }
bevy_utils = "=0.12.1"
bevy_asset_loader = { version = "=0.18.0", default-features = false }
serde = { version = "1", features = ["derive"] }
serde_json = "1"
