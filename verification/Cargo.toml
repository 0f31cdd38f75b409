[package]
name = "sitecheck"
version = "0.1.0"
edition = "2021"
publish = false

[dependencies]
regex = "=1.13.1"
scraper = "=0.29.0"
camino = "=1.2.6"
chrono = "=0.4.45"
eyre = "=0.6.14"
glob = "=0.3.4"
tera = { version = "=1.20.1", default-features = false }
tracing = "*"
