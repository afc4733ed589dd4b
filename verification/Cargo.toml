[package]
name = "pipc"
version = "0.1.0"
edition = "2021"
publish = false

[dependencies]
anyhow = "1"
clap = { version = "4", features = ["cargo"] }
color-print = "0.3"
derive_more = { version = "1", features = ["display", "error"] }
heck = "0.5"
