[package]
name = "category_nn"
version = "0.1.0"
edition = "2021"
publish = false

[dependencies]
candle-core = "*"
ndarray = "*"
rand = "*"
smallvec = "*"
image = { version = "*", default-features = false, features = ["png"] }
