[package]
name = "ascending_demo"
version = "0.1.0"
edition = "2021"
publish = false

[dependencies]
hecs = "0.10"
image = { version = "0.24", default-features = false, features = ["png"] }
bytemuck = { version = "1", features = ["derive"] }
slab = "0.4"
ultraviolet = "0.9"
mint = "0.5"
log = "0.4"
thiserror = "1"
