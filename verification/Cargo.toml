[package]
name = "fuide"
version = "0.1.0"
edition = "2021"
publish = false

[dependencies]
egui = "0.36"
log = "0.4"
serde_json = "1"
