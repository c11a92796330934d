[package]
name = "sim_core"
version = "0.1.0"
edition = "2021"
publish = false

[dependencies]
ahash = "0.8"
image = { version = "0.24", default-features = false, features = ["png"] }
boa_engine = "0.17"
instant = "0.1"
kira = "0.8"
log = "0.4"
rust-embed = "6"
winit = "0.28"
winit_input_helper = "0.14"
