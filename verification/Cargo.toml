[package]
name = "ihs_wl_server"
version = "0.1.0"
edition = "2021"
publish = false

[dependencies]
drm-ffi = "*"
drm-fourcc = "2"
gbm-sys = "*"
libc = "0.2"
smithay = { version = "*", default-features = false, features = ["backend_drm", "backend_gbm", "desktop", "wayland_frontend"] }
tracing = "0.1"
tracing-subscriber = { version = "0.3", features = ["env-filter"] }
wayland-scanner = "*"
