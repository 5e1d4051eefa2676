[package]
name = "fractyl_renderer"
version = "0.1.0"
edition = "2021"
publish = false

[dependencies]
resvg = "*"
serde = { version = "*", features = ["derive"] }
serde_json = "*"
image = { version = "*", default-features = false, features = ["png"] }
log = "*"
axum = "*"
tokio = { version = "*", features = ["rt-multi-thread", "net", "macros"] }
axum_typed_multipart = "*"
