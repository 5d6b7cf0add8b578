[package]
name = "format_staged"
version = "0.1.0"
edition = "2021"
publish = false

[dependencies]
clap = { version = "*", features = ["derive"] }
git2 = { version = "*", default-features = false }
