[package]
name = "ea_compiler"
version = "0.1.0"
edition = "2021"
publish = false

[dependencies]
serde = { version = "1", features = ["derive"] }
serde_json = "1"
thiserror = "1"
crossbeam-channel = "0.5"
num_cpus = "1"
