[package]
name = "park_engine"
version = "0.1.0"
edition = "2021"
publish = false

[dependencies]
smallvec = "=1.16.4"
laminar = "=0.5.0"
crossbeam-channel = "=0.5.17"
nalgebra-glm = "=0.18.0"
log = "=0.4.35"
anyhow = "=1.0.104"
gltf = "=1.4.1"
winit = "=0.28.7"
env_logger = { version = "=0.10.2", default-features = false }
