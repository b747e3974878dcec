[package]
name = "ssg"
version = "0.1.0"
edition = "2021"
publish = false

[dependencies]
rushdown = "*"
tera = "1"
serde = { version = "1", features = ["derive"] }
serde_json = "1"
toml = "0.8"
clap = { version = "4", features = ["derive"] }
notify = "6"
memmap2 = "0.9"
anyhow = "1"
