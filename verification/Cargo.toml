[package]
name = "gdiff"
version = "0.1.0"
edition = "2021"
publish = false

[dependencies]
similar = "*"
syntect = { version = "*", default-features = false, features = ["default-syntaxes", "regex-fancy"] }
eframe = { version = "*", default-features = false, features = ["default_fonts", "glow", "x11"] }
image = { version = "*", default-features = false, features = ["png"] }
notify = "*"
serde = { version = "1", features = ["derive"] }
serde_json = "1"
dirs = "*"
