[package]
name = "vivotk"
version = "0.1.0"
edition = "2021"
publish = false

[dependencies]
clap = { version = "4", features = ["derive"] }
kdtree = "0.7"
kiddo = "0.2"
nalgebra = "0.32"
ply-rs = "0.1"
rand = "0.8"
serde = { version = "1", features = ["derive"] }
serde_json = "1"
tokio = { version = "1", features = ["sync"] }
