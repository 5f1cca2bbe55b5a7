[package]
name = "voxel_world"
version = "0.1.0"
edition = "2021"
publish = false

[dependencies]
block-mesh = "*"
noise = "=0.9.0"
