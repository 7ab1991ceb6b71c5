[package]
name = "site"
version = "0.1.0"
edition = "2021"
publish = false

[dependencies]
anyhow = "=1.0.104"
askama = "=0.16.1"
comrak = { version = "~0.55", features = ["shortcodes"] }
jiff = { version = "=0.2.39", features = ["serde"] }
latex2mathml = "=0.2.3"
serde = { version = "=1.0.229", features = ["derive"] }
slug = "=0.1.6"
thiserror = "=2.0.21"
toml = "=1.1.8"
typed-arena = "=2.0.2"
ureq = { version = "=3.5.1", features = ["json"] }
uuid = { version = "=1.29.0", features = ["serde"] }
walkdir = "=2.5.0"
