[package]
name = "zskins"
version = "0.1.0"
edition = "2021"
publish = false

[dependencies]
anyhow = "=1.0.104"
async-channel = "=2.5.0"
async-executor = "=1.14.1"
async-io = "=2.6.0"
bincode = "=1.3.3"
blake3 = "=1.8.7"
chrono = "=0.4.45"
clap = { version = "=4.6.7", features = ["derive"] }
dirs = "=7.0.0"
futures-lite = "=2.6.1"
image = { version = "0.25", default-features = false, features = ["bmp", "dds", "ff", "gif", "hdr", "ico", "jpeg", "png", "pnm", "qoi", "tga", "tiff", "webp"] }
libc = "=0.2.191"
nix = { version = "=0.29.0", features = ["fs", "mman", "poll", "process", "signal"] }
notify = "=8.2.1"
png = "=0.17.16"
rayon = "=1.12.0"
rusqlite = { version = "=0.41.1", features = ["bundled"] }
serde = { version = "=1.0.229", features = ["derive"] }
serde_json = "1"
syntect = { version = "=5.3.0", default-features = false, features = ["default-fancy"] }
thiserror = "=2.0.21"
toml = "=0.8.23"
tracing = "=0.1.44"
two-face = "=0.5.2"
uuid = { version = "=1.29.0", features = ["v4", "v5"] }
walkdir = "=2.5.0"
wayland-client = "=0.31.15"
wayland-protocols = { version = "=0.32.13", features = ["client", "staging"] }
wayland-protocols-wlr = { version = "=0.3.12", features = ["client"] }
zbus = "=5.19.0"
