[package]
name = "compositor_core"
version = "0.1.0"
edition = "2021"
publish = false

[dependencies]
bitflags = "2"
calloop = "0.14"
drm = "0.14"
drm-fourcc = "2.2"
indexmap = "2"
pixman = { version = "0.2", features = ["drm-fourcc"] }
reis = { version = "*", features = ["calloop"] }
rustix = "1"
smallvec = "1"
thiserror = "2"
tracing = "0.1"
wayland-server = "0.31"
