[package]
name = "wadcore"
version = "0.1.0"
edition = "2021"
publish = false

[dependencies]
byteorder = "1"
const_format = "*"
crossterm = "*"
glium = "0.31"
winit = "0.26"
