[package]
name = "sensor_fusion_sim"
version = "0.1.0"
edition = "2021"
publish = false

[dependencies]
nalgebra = "*"
plotters = "*"
rand = "*"
