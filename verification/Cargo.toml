[package]
name = "raycasting"
version = "0.1.0"
edition = "2021"
publish = false

[dependencies]
minifb = "*"
nalgebra-glm = "*"
rodio = "*"
