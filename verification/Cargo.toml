[package]
name = "clip_pop"
version = "0.3.1"
edition = "2021"
publish = false

[dependencies]
chrono = "0.4"
rustc-hash = "2"
nucleo = "0.5"
serde = { version = "1", features = ["derive"] }
serde_json = "1"
anyhow = "1"
thiserror = "2"
tracing = "0.1"
tracing-subscriber = { version = "0.3", features = ["env-filter"] }
tokio = { version = "1", features = ["rt", "sync", "fs"] }
futures = "0.3"
sqlx = { version = "0.8", default-features = false, features = ["sqlite", "runtime-tokio"] }
dirs = "6"
open = "5"
image = { version = "0.25", default-features = false, features = ["png"] }
os_pipe = "1"
wayland-client = "0.31"
wayland-protocols-wlr = { version = "0.3", features = ["client"] }
wl-clipboard-rs = "0.9"
