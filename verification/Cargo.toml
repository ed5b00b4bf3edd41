[package]
name = "ege"
version = "0.1.0"
edition = "2021"
publish = false

[dependencies]
softbuffer = "0.4"
winit = "0.30"
