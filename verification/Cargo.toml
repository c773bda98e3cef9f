[package]
name = "epycell"
version = "0.1.0"
edition = "2021"
publish = false

[dependencies]
anyhow = "=1.0.104"
base64 = "=0.23.1"
image = "=0.25.10"
jupyter-protocol = "=2.0.3"
libc = "=0.2.191"
portable-pty = "=0.9.0"
ratatui = "=0.30.2"
ratatui-image = { version = "=11.1.0", default-features = false, features = ["crossterm", "image-defaults"] }
runtimelib = "=5.0.0"
serde = { version = "=1.0.229", features = ["derive"] }
serde_json = "=1.0.154"
syntect = "=5.3.0"
tempfile = "=3.27.0"
tokio = { version = "=1.54.1", features = ["full"] }
toml = "=1.1.8"
tui-markdown = "=0.3.13"
tui-term = "=0.3.4"
uuid = { version = "=1.29.0", features = ["v4"] }
