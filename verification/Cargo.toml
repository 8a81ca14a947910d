[package]
name = "prof_viewer"
version = "0.1.0"
edition = "2021"
publish = false

[dependencies]
regex = "*"
rayon = "*"
zstd = "*"
ciborium = "*"
serde = { version = "*", features = ["derive"] }
