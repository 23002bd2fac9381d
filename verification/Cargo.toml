[package]
name = "gloom_rs"
version = "0.1.0"
edition = "2021"
publish = false

[dependencies]
gl = "=0.14.0"
glutin = "=0.27.0"
nalgebra-glm = "=0.16.0"
tobj = { version = "3", default-features = false }
