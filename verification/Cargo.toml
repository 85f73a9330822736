[package]
name = "line_set_ops"
version = "0.1.0"
edition = "2021"
publish = false

[dependencies]
eframe = { version = "=0.36.2", default-features = false, features = ["glow", "x11", "default_fonts"] }
rfd = { version = "=0.17.2", default-features = false, features = ["xdg-portal"] }
