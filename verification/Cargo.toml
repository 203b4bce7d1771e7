[package]
name = "bevy_enhanced_input"
version = "0.1.0"
edition = "2021"
publish = false

[dependencies]
bevy = { version = "=0.19.1", default-features = false, features = ["bevy_state"] }
smallvec = "=1.16.4"
serde = { version = "=1.0.229", features = ["derive"] }
log = "=0.4.35"
