[package]
name = "tank_engine"
version = "0.1.0"
edition = "2021"
publish = false

[dependencies]
bevy = { version = "=0.15.3", default-features = false, features = ["bevy_asset", "bevy_render", "bevy_pbr", "bevy_core_pipeline", "bevy_ui", "bevy_text", "bevy_gizmos", "bevy_window", "default_font"] }
