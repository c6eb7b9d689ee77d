[package]
name = "deepmind_patches"
version = "0.1.0"
edition = "2021"
publish = false

[dependencies]
deepmind-midi = "=26.5.2"
sha2 = "=0.11.1"
spdx = "=0.13.6"
toml = { version = "=1.2.1", features = ["preserve_order"] }
serde = { version = "=1.0.229", features = ["derive"] }
thiserror = "=2.0.21"
walkdir = "=2.5.0"
ureq = "=3.5.1"
flate2 = "=1.1.10"
tar = "=0.4.46"
clap = { version = "=4.6.7", features = ["derive"] }
