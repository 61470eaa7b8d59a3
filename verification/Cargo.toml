[package]
name = "polymodo"
version = "0.1.0"
edition = "2021"
publish = false

[dependencies]
anyhow = "1"
bincode = "2"
clap = { version = "4", features = ["derive"] }
derive_more = { version = "2", features = ["display", "error", "from"] }
egui = { version = "*", default-features = false }
egui-wgpu = { version = "*", default-features = false, features = ["wayland"] }
fork = "*"
icon = "*"
indexmap = "2"
log = "0.4"
log-panics = "2"
nix = { version = "*", features = ["process"] }
nucleo = "0.5"
once_map = "*"
rand = "*"
rust-ini = "*"
smallvec = "1"
smithay-client-toolkit = { version = "*", default-features = false, features = ["xkbcommon"] }
smol = "2"
tokio = { version = "1", features = ["rt", "sync", "time", "macros"] }
tracing = "0.1"
tracing-subscriber = { version = "0.3", features = ["env-filter"] }
walkdir = "2"
wayland-backend = "*"
wayland-protocols = { version = "*", features = ["client", "staging"] }
wgpu = { version = "*", default-features = false }
xdg = "3"
