[package]
name = "tower_defense"
version = "0.1.0"
edition = "2021"
publish = false

[dependencies]
amethyst = { version = "0.15", default-features = false, features = ["renderer", "vulkan"] }
amethyst_input = "*"
amethyst_rendy = "*"
amethyst_tiles = "*"
amethyst_window = "*"
ron = "*"
serde = { version = "1", features = ["derive"] }
serde_json = "1"
winit = "0.19"
