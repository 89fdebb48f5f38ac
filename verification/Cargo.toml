[package]
name = "ssbh_pose"
version = "0.1.0"
edition = "2021"
publish = false

[dependencies]
glam = "=0.34.1"
ssbh_data = { version = "=0.19.0", features = ["strum"] }
