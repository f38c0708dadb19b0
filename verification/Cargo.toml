[package]
name = "nantaraquad"
version = "0.1.0"
edition = "2021"
publish = false

[dependencies]
serde = { version = "=1.0.229", features = ["derive"] }
serde_json = "=1.0.154"
bincode = "=1.3.3"
image = { version = "=0.24.9", default-features = false, features = ["png"] }
macroquad = "=0.4.16"
lazy_static = "=1.5.1"
libc = "=0.2.191"
