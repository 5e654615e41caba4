[package]
name = "mlpnet"
version = "0.1.0"
edition = "2021"
publish = false

[dependencies]
rustc_apfloat = "=0.2.3"
rand = "=0.10.3"
image = { version = "=0.25.10", default-features = false, features = ["png"] }
