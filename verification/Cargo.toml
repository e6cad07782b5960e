[package]
name = "starlight"
version = "0.1.0"
edition = "2021"
publish = false

[dependencies]
serde = "=1.0.229"
structopt = "=0.3.26"
