[package]
name = "toroidal_life"
version = "0.1.0"
edition = "2021"
publish = false

[dependencies]
image = { version = "0.24", default-features = false, features = ["png"] }
log = "0.4"
serde = { version = "1", features = ["derive"] }
serde_json = "1"
slug = "0.1"
structopt = "0.3"
