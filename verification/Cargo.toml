[package]
name = "basic_game"
version = "0.1.0"
edition = "2021"
publish = false

[dependencies]
avian3d = { version = "=0.7.0", default-features = false, features = ["3d", "f32", "parry-f32", "collider-from-mesh"] }
bevy_ahoy = "=0.2.0"
bevy_ecs = { version = "=0.19.1", default-features = false }
bevy_enhanced_input = { version = "=0.26.0", default-features = false }
bevy_time = { version = "=0.19.1", default-features = false }
