[package]
name = "lds"
version = "0.1.0"
edition = "2021"
publish = false

[dependencies]
clap = { version = "*", features = ["derive"] }
ndarray = { version = "*", features = ["rayon"] }
ndarray-npy = "*"
num = "*"
progress_bar = "*"
rayon = "*"
rustfft = "*"
serde = { version = "*", features = ["derive"] }
serde_yaml = "*"
