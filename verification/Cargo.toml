[package]
name = "spark_renderer"
version = "0.1.0"
edition = "2021"
publish = false

[dependencies]
ash = "0.38"
gpu-allocator = "0.27"
thiserror = "1"
image = { version = "0.25", default-features = false }
num_cpus = "1"
