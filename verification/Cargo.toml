[package]
name = "monarch_engine"
version = "0.1.0"
edition = "2021"
publish = false

[dependencies]
rand = "=0.10.3"
rand_core = "=0.10.1"
rand_chacha = "=0.10.0"
noise = "=0.9.0"
bevy_ecs = "=0.17.3"
bevy_math = "=0.17.3"
bevy_app = "=0.17.3"
bevy_transform = "=0.17.3"
bevy_input = "=0.17.3"
flume = "=0.11.1"
rayon = "=1.12.0"
lru = "=0.16.4"
rustc-hash = "=2.1.3"
bitcode = "=0.6.9"
bytemuck = { version = "=1.25.2", features = ["derive"] }
serde = { version = "=1.0.229", features = ["derive"] }
ron = "=0.11.0"
