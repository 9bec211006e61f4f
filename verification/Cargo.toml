[package]
name = "sasquatch_engine"
version = "0.1.0"
edition = "2021"
publish = false

[dependencies]
rand = "0.9"
rand_chacha = "0.9"
serde = { version = "1", features = ["derive"] }
toml = "0.8"
thiserror = "2"
pyo3 = "0.25"
numpy = "0.25"
