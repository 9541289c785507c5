[package]
name = "rhino"
version = "0.4.0"
edition = "2021"
publish = false

[dependencies]
globset = "0.4"
regex = "1"
unicode-segmentation = "1"
yaml_serde = "*"
serde = { version = "1", features = ["derive"] }
serde_json = "1"
sha2 = "0.10"
