[package]
name = "onnx_rustime"
version = "0.1.0"
edition = "2021"
publish = false

[dependencies]
colored = "*"
dialoguer = "*"
image = "*"
ndarray = "*"
