[package]
name = "axsh"
version = "0.1.0"
edition = "2021"
publish = false

[dependencies]
agw = "*"
anyhow = "1"
aws-lc-rs = { version = "1", features = ["unstable"] }
clap = { version = "4", features = ["derive"] }
log = "0.4"
stderrlog = "*"
tokio = { version = "1", features = ["full"] }
