[package]
name = "shader_docs"
version = "0.1.0"
edition = "2021"
publish = false

[dependencies]
naga_oil = "0.15"
naga = "22"
markdown = "*"
serde = { version = "1", features = ["derive"] }
serde_json = "1"
