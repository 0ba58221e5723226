[package]
name = "rengrave"
version = "0.1.0"
edition = "2021"
publish = false

[dependencies]
image = { version = "*", default-features = false, features = ["png", "gif", "jpeg", "bmp", "tiff", "pnm"] }
clap = { version = "*", features = ["derive"] }
anyhow = "*"
serde = { version = "*", features = ["derive"] }
serde_json = "*"
thiserror = "*"
clipper2 = "*"
kurbo = "*"
quick-xml = "*"
ttf-parser = "*"
