[package]
name = "voxel_core"
version = "0.1.0"
edition = "2021"
publish = false

[dependencies]
bincode = "1"
bytemuck = { version = "1", features = ["derive"] }
glam = "0.29"
serde = { version = "1", features = ["derive"] }
serde_json = "1"
