[package]
name = "fri3d_runtime"
version = "0.1.0"
edition = "2021"
publish = false

[dependencies]
miniz_oxide = "*"
wasmi = "*"
serde = { version = "*", features = ["derive"] }
serde_json = "*"
png = "*"
