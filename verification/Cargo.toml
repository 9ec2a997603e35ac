[package]
name = "ship_cache"
version = "0.1.0"
edition = "2021"
publish = false

[dependencies]
indexmap = "*"
log = "*"
serde = { version = "*", features = ["derive"] }
parry3d-f64 = "*"
stl_io = "*"
obj = "*"
