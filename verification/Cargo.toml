[package]
name = "fourmis"
version = "0.1.0"
edition = "2021"
publish = false

[dependencies]
rand = "0.8"
random_choice = "0.3"
bevy = { version = "0.10", default-features = false, features = ["bevy_render", "bevy_sprite", "bevy_core_pipeline", "bevy_asset", "bevy_winit"] }
bevy_prototype_lyon = "0.8"
bevy_framepace = "0.12"
