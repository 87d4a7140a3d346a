[package]
name = "mermaid-svg-render"
version = "0.1.0"
edition = "2021"
publish = false

[dependencies]
clap = { version = "=4.6.7", features = ["derive"] }
colored = "=2.2.0"

[dev-dependencies]
regex = "=1.13.1"
