[package]
name = "assignments_plugin"
version = "0.1.0"
edition = "2021"
publish = false

[dependencies]
extism-pdk = "*"
logic_based_learning_paths = "*"
schemars = "*"
serde = { version = "*", features = ["derive"] }
serde_json = "*"
serde_yaml = "*"
