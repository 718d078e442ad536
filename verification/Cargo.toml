[package]
name = "gsi"
version = "1.0.0"
edition = "2021"
publish = false

[dependencies]
futures = "0.3"
gsj = "*"
image = "0.23"
serde = { version = "1", features = ["derive"] }
serde_json = "1"
strip_bom = "1"
surf = "2"
thiserror = "1"
