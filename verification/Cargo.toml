[package]
name = "viewer"
version = "0.1.0"
edition = "2021"
publish = false

[dependencies]
calamine = "=0.38.0"
fe2o3-crust = "*"
fe2o3-glow = "*"
fe2o3-highlight = "*"
