[package]
name = "argus_lasso"
version = "0.1.0"
edition = "2021"
publish = false

[dependencies]
clap = { version = "=4.6.7", default-features = false, features = ["std", "help", "usage", "derive"] }
crossbeam-channel = "=0.5.17"
eframe = { version = "=0.33.3", default-features = false, features = ["default_fonts", "glow", "wayland"] }
egui = { version = "=0.33.3", default-features = false, features = ["default_fonts"] }
egui_extras = { version = "=0.33.3", default-features = false }
env_logger = { version = "=0.11.11", default-features = false }
ksni = { version = "=0.3.7", features = ["blocking"] }
log = "=0.4.35"
nix = { version = "=0.29.0", features = ["fs", "process", "resource", "sched", "signal"] }
notify-rust = "=4.18.2"
procfs = { version = "=0.17.0", default-features = false }
raw-window-handle = "=0.6.2"
regex = "=1.13.1"
serde = { version = "=1.0.229", features = ["derive"] }
serde_json = "=1.0.154"
toml = "=0.8.23"
uuid = { version = "=1.29.0", features = ["v4"] }
