[package]
name = "arch"
version = "0.1.0"
edition = "2021"
publish = false

[dependencies]
binary-greedy-meshing = "=0.5.2"
dashmap = "=6.2.1"
rand = "=0.9.5"
bevy_math = "=0.16.1"
bevy_platform = "=0.16.1"
noiz = "=0.2.0"
rayon = "=1.12.0"
serde = { version = "=1.0.229", features = ["derive"] }
thiserror = "=2.0.21"
