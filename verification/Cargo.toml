[package]
name = "dungeon"
version = "0.1.0"
edition = "2021"
publish = false

[dependencies]
ndarray = "=0.15.6"
bracket-noise = "=0.8.7"
bevy = { version = "=0.10.1", default-features = false, features = ["bevy_asset", "bevy_core_pipeline", "bevy_pbr", "bevy_render", "bevy_sprite", "png"] }
bevy_rapier3d = "=0.21.0"
indicatif = "=0.17.11"
