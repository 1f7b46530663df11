[package]
name = "cos-niri-bar"
version = "0.4.0"
edition = "2021"
publish = false

[dependencies]
chrono = "0.4"
dirs = "*"
gio = "0.20"
glib = "0.20"
gtk4 = { version = "0.9", features = ["v4_12"] }
gtk4-layer-shell = "0.5"
libc = "0.2"
niri-ipc = "*"
serde = { version = "1", features = ["derive"] }
serde_json = "1"
