[package]
name = "npc_behavior"
version = "0.1.0"
edition = "2021"
publish = false

[dependencies]
bevy = { version = "=0.10.1", default-features = false, features = ["bevy_asset", "bevy_scene", "bevy_animation"] }
bevy-inspector-egui = { version = "0.18", default-features = false }
serde = { version = "1", features = ["derive"] }
