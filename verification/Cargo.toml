[package]
name = "augmentor"
version = "0.1.0"
edition = "2021"
publish = false

[dependencies]
blake3 = { version = "1", default-features = false, features = ["std", "pure"] }
image = { version = "0.25", default-features = false, features = ["png"] }
num_cpus = "1"
palette = "0.7"
rand = "0.8"
rayon = "1"
serde = { version = "1", features = ["derive"] }
