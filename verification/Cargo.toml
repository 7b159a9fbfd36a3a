[package]
name = "makinilya"
version = "0.1.0"
edition = "2021"
publish = false

[dependencies]
anstyle = "=1.0.14"
clap = { version = "=4.6.7", features = ["derive"] }
colored = "=3.1.1"
docx-rs = "=0.4.22"
serde = { version = "=1.0.229", features = ["derive"] }
thiserror = "=2.0.21"
toml = "=1.1.7"
zip = { version = "=8.6.0", default-features = false }
