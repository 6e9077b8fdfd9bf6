[package]
name = "selection_broker"
version = "0.1.0"
edition = "2021"
publish = false

[dependencies]
tracing = "0.1"
wayland-protocols-wlr = { version = "0.1", features = ["server"] }
wayland-server = "0.30"
