[package]
name = "rust_v"
version = "0.1.0"
edition = "2021"
publish = false

[dependencies]
fastrand = "=2.5.0"
image = { version = "=0.25.10", default-features = false }
serde = { version = "=1.0.229", features = ["derive"] }
tobj = "=4.0.5"
typetag = "=0.2.23"
ultraviolet = { version = "=0.10.0", features = ["serde", "int"] }
