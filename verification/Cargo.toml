[package]
name = "gaussrace"
version = "0.1.0"
edition = "2021"
publish = false

[dependencies]
bevy = { version = "=0.16.1", default-features = false, features = ["std", "bevy_asset", "bevy_state", "bevy_window", "bevy_winit", "bevy_core_pipeline", "bevy_pbr", "bevy_render", "bevy_gizmos", "bevy_log", "x11"] }
