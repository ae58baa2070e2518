[package]
name = "ritz"
version = "0.1.0"
edition = "2021"
publish = false

[dependencies]
anyhow = "=1.0.104"
dirs = "=6.0.0"
eframe = { version = "=0.30.0", default-features = false, features = ["default_fonts", "glow", "wayland", "x11"] }
egui = { version = "=0.30.0", default-features = false, features = ["default_fonts"] }
indexmap = { version = "=2.14.2", features = ["serde"] }
nix = { version = "=0.29.0", features = ["process", "signal"] }
png = "=0.18.1"
serde = { version = "=1.0.229", features = ["derive"] }
serde_json = "=1.0.154"
shlex = "=1.3.0"
signal-hook = "=0.3.18"
thiserror = "=2.0.21"
toml = "=0.8.23"
