[package]
name = "secure_browse"
version = "0.1.0"
edition = "2021"
publish = false

[dependencies]
tokio = { version = "1", features = ["full"] }
tokio-rustls = { version = "0.26", default-features = false, features = ["ring", "logging", "tls12"] }
rustls = { version = "0.23", default-features = false, features = ["ring", "std", "logging", "tls12"] }
rustls-pemfile = "2"
tar = "0.4"
ratatui = "0.29"
crossterm = "0.28"
syntect = "5"
syntect-tui = "3"
color-eyre = "0.6"
