[package]
name = "grout"
version = "0.1.0"
edition = "2021"
publish = false

[dependencies]
anyhow = "1"
clap = { version = "4", features = ["derive"] }
cuda-async = "*"
cuda-core = "*"
cudarc = { version = "*", default-features = false, features = ["std", "cublas", "driver", "f16", "dynamic-loading", "cuda-12080"] }
cutile = "*"
memmap2 = "*"
rand = "0.8"
rayon = "1"
safetensors = "*"
serde = { version = "1", features = ["derive"] }
serde_json = "1"
tokenizers = { version = "*", default-features = false, features = ["onig"] }
tokio = { version = "1", features = ["rt", "macros"] }
