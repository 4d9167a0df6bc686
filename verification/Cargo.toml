[package]
name = "democutter"
version = "0.1.0"
edition = "2021"
publish = false

[dependencies]
tf-demo-parser = { version = "=0.7.1", features = ["write"] }
bitbuffer = "=0.11.3"
clap = { version = "=4.6.7", features = ["derive"] }
