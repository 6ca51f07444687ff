[package]
name = "quadphys"
version = "0.1.0"
edition = "2021"
publish = false

[dependencies]
arrayvec = "0.7"
cgmath = { version = "0.18", features = ["serde"] }
rayon = "1"
serde = { version = "1", features = ["derive"] }
serde_json = "1"
