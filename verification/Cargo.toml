[package]
name = "wowland"
version = "0.1.0"
edition = "2021"
publish = false

[dependencies]
clap = { version = "=4.6.7", features = ["derive"] }
serde = { version = "=1.0.229", features = ["derive"] }
smithay = { version = "=0.7.0", default-features = false, features = ["backend_winit", "renderer_gl", "wayland_frontend"] }
toml = "=1.1.8"
tracing = "=0.1.44"
tracing-subscriber = { version = "=0.3.23", features = ["env-filter", "fmt"] }
wayland-protocols = { version = "=0.32.13", features = ["server"] }
wayland-server = "=0.31.14"
winit = "=0.30.13"
xkeysym = "=0.2.1"
