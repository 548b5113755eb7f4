[package]
name = "peck"
version = "0.1.0"
edition = "2021"
publish = false

[dependencies]
anyhow = "=1.0.104"
atspi = { version = "=0.30.0", features = ["tokio"] }
clap = { version = "=4.6.7", features = ["derive"] }
fontdb = "=0.24.0"
fontdue = "=0.9.5"
gtk4 = "=0.11.5"
gtk4-layer-shell = "=0.8.1"
niri-ipc = "=26.4.0"
nucleo-matcher = "=0.3.1"
serde_json = "=1.0.154"
smithay-client-toolkit = "=0.20.0"
tokio = { version = "=1.54.1", features = ["full"] }
tracing = "=0.1.44"
tracing-subscriber = { version = "=0.3.23", features = ["env-filter"] }
wayland-client = "=0.31.15"
wayland-protocols = { version = "=0.32.13", features = ["client"] }
wayland-protocols-wlr = { version = "=0.3.12", features = ["client"] }
