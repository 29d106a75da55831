[package]
name = "lam_tui"
version = "0.1.0"
edition = "2021"
publish = false

[dependencies]
arboard = { version = "=3.7.0", default-features = false }
base64 = "=0.23.1"
crossterm = "=0.29.0"
nix = { version = "=0.31.3", features = ["fs"] }
pulldown-cmark = { version = "=0.13.6", default-features = false }
ratatui = "=0.30.2"
redb = "=4.4.0"
reqwest = { version = "=0.13.5", default-features = false, features = ["json"] }
ring = "=0.17.14"
serde = { version = "=1.0.229", features = ["derive"] }
serde_json = { version = "=1.0.154", features = ["float_roundtrip", "unbounded_depth"] }
thiserror = "=2.0.21"
tokio = { version = "=1.54.1", features = ["full"] }
toml = "=1.1.8"
tracing = "=0.1.44"
tracing-subscriber = { version = "=0.3.23", features = ["json"] }
tui-markdown = { version = "=0.3.13", default-features = false }
unicode-segmentation = "=1.13.3"
unicode-width = "=0.2.3"

[dev-dependencies]
tempfile = "=3.27.0"
