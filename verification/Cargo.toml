[package]
name = "dotter"
version = "0.1.0"
edition = "2021"
publish = false

[dependencies]
anyhow = "1"
handlebars = "4"
log = "0.4"
serde = { version = "1", features = ["derive"] }
toml = "0.5"
