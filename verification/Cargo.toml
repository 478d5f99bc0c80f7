[package]
name = "jump_cube"
version = "0.1.0"
edition = "2021"
publish = false

[dependencies]
rand = "=0.8.5"
bevy = { version = "=0.15.3", default-features = false, features = ["bevy_asset", "bevy_audio", "bevy_color", "bevy_core_pipeline", "bevy_render", "bevy_sprite", "bevy_state", "bevy_text", "bevy_window"] }
