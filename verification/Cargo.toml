[package]
name = "syncrim"
version = "0.1.0"
edition = "2021"
publish = false

[dependencies]
egui = "=0.28.1"
serde = { version = "=1.0.229", features = ["derive"] }
typetag = "=0.2.23"
vizia = "0.2"
