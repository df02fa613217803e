[package]
name = "panepow"
version = "0.1.0"
edition = "2021"
publish = false

[dependencies]
rand = "=0.8.8"
bevy = { version = "=0.6.1", default-features = false, features = ["render", "bevy_winit", "png", "x11"] }
bevy_asset_loader = { version = "=0.8.0", features = ["render"] }
bevy-ui-navigation = "=0.13.1"
pin-project = "=1.0.12"
