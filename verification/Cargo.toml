[package]
name = "rectray"
version = "0.1.0"
edition = "2021"
publish = false

[dependencies]
bevy_app = "0.16"
bevy_ecs = "0.16"
bevy_math = "0.16"
bevy_transform = "0.16"
bevy_time = "0.16"
