[package]
name = "embral"
version = "0.1.0"
edition = "2021"
publish = false

[dependencies]
serde = { version = "1", features = ["derive"] }
serde_json = "1"
toml_edit = "0.22"
chrono = "0.4"
dirs = "*"
libc = "0.2"
