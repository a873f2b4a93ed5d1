[package]
name = "rat_king"
version = "0.1.0"
edition = "2021"
publish = false

[dependencies]
quick-xml = "=0.37.5"
usvg = "=0.45.1"
resvg = "=0.45.1"
tiny-skia = "=0.11.4"
lyon_geom = "=1.0.20"
serde = { version = "=1.0.229", features = ["derive"] }
serde_json = "=1.0.154"
serde_yaml = "=0.9.34"
rand = "=0.9.5"
crossterm = "=0.28.1"
ratatui = "=0.28.1"
ratatui-image = "=1.0.5"
image = { version = "=0.25.10", default-features = false, features = ["png"] }
