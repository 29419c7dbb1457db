[package]
name = "ferrocyanide"
version = "0.1.0"
edition = "2021"
publish = false

[dependencies]
anyhow = "=1.0.104"
axum = "=0.8.9"
clap = { version = "=4.6.7", features = ["derive"] }
comrak = { version = "=0.56.0", default-features = false, features = ["syntect-fancy"] }
once_cell = "=1.21.4"
serde = { version = "=1.0.229", features = ["derive"] }
serde_yaml = "=0.9.34"
tera = "=1.20.1"
time = { version = "=0.3.55", features = ["parsing"] }
tokio = { version = "=1.53.2", features = ["macros", "rt-multi-thread", "net"] }
tower-http = { version = "=0.7.1", features = ["fs", "trace", "compression-gzip", "decompression-gzip"] }
tracing = "=0.1.44"
tracing-subscriber = { version = "=0.3.23", features = ["env-filter", "fmt"] }
walkdir = "=2.5.0"
