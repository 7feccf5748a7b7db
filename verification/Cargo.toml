[package]
name = "madsterm"
version = "0.1.0"
edition = "2021"
publish = false

[dependencies]
portable-pty = "*"
uuid = { version = "*", features = ["v4"] }
regex = "*"
serde = { version = "*", features = ["derive"] }
git2 = "*"
walkdir = "*"
parking_lot = "*"
