[package]
name = "objmesh"
version = "0.1.0"
edition = "2021"
publish = false

[dependencies]
gl = "0.14"
glm = "0.2"
glutin = "0.29"
image = "0.24"
