[package]
name = "python2ipynb"
version = "0.1.0"
edition = "2021"
publish = false

[dependencies]
anyhow = "=1.0.104"
argh = "=0.1.19"
serde = { version = "1", features = ["derive"] }
serde_json = "=1.0.151"
thiserror = "=2.0.21"
