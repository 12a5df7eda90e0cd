[package]
name = "fsals"
version = "0.1.0"
edition = "2021"
publish = false

[dependencies]
cgmath = "0.18"
clap = { version = "3", features = ["derive"] }
iter_num_tools = "*"
lazy_static = "1"
log = "0.4"
num = "0.4"
rayon = "1"
serde = { version = "1", features = ["derive"] }
serde_json = "1"
simple_logger = "*"
