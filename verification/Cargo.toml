[package]
name = "nyansync"
version = "0.1.0"
edition = "2021"
publish = false

[dependencies]
anyhow = "1"
supershorty = "*"
thiserror = "2"
tokio = { version = "1", features = ["full"] }
walkdir = "2"
sha1 = "0.10"
