[package]
name = "egui_wings"
version = "0.1.0"
edition = "2021"
publish = false

[dependencies]
fxhash = "=0.2.1"
egui = { version = "=0.28.1", features = ["serde"] }
serde = { version = "=1.0.229", features = ["derive"] }
ahash = "=0.8.12"
wings = "=0.1.5"
geese = "=0.3.11"
egui_demo_lib = "0.28"
