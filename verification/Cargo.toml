[package]
name = "mod_profiles"
version = "0.1.0"
edition = "2021"
publish = false

[dependencies]
serde = { version = "1", features = ["derive"] }
serde_json = "1"
fs-err = "*"
tempfile = "3"
directories = "*"
