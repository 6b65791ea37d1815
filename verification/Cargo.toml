[package]
name = "arlen_comp"
version = "0.1.0"
edition = "2021"
publish = false

[dependencies]
anyhow = "=1.0.104"
png = "=0.18.1"
serde = { version = "=1.0.229", features = ["derive"] }
serde_json = "=1.0.154"
smithay = { version = "=0.7.0", default-features = false, features = ["wayland_frontend", "renderer_gl", "backend_egl"] }
tempfile = "=3.27.0"
wayland-client = "=0.31.15"
wayland-protocols = { version = "=0.32.13", features = ["client", "staging"] }
wayland-protocols-wlr = { version = "=0.3.12", features = ["client"] }
