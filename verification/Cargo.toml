[package]
name = "explorer"
version = "0.1.0"
edition = "2021"
publish = false

[dependencies]
camino = "=1.2.6"
directories = "=6.0.0"
hex = "=0.4.3"
jwalk = "=0.8.1"
kdl = "=6.7.1"
lsp-types = "=0.97.0"
miette = "=7.6.0"
notify = "=8.2.1"
nucleo = "=0.5.0"
pico-args = "=0.5.0"
r3bl_tui = { version = "=0.6.0", default-features = false }
rmux-sdk = "=0.10.0"
rustix = { version = "=1.1.6", features = ["event"] }
serde = { version = "=1.0.229", features = ["derive"] }
serde_json = "=1.0.154"
sha2 = "=0.10.9"
tokio = { version = "=1.54.1", features = ["rt-multi-thread", "macros", "signal", "sync", "time"] }
toml = "=0.9.12"
tracing = "=0.1.44"
tracing-subscriber = "=0.3.23"
unicode-segmentation = "=1.13.3"
url = "=2.5.8"
