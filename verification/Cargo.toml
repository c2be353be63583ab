[package]
name = "netgraph"
version = "0.1.0"
edition = "2021"
publish = false

[dependencies]
anyhow = "=1.0.104"
eframe = { version = "0.36", default-features = false, features = ["default_fonts", "glow", "x11"] }
egui-notify = "=0.23.0"
nftables = "=0.4.1"
rfd = { version = "=0.17.2", default-features = false, features = ["xdg-portal"] }
serde = { version = "=1.0.229", features = ["derive"] }
serde_json = "=1.0.154"
tap = "=1.0.1"
