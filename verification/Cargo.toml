[package]
name = "render_md"
version = "0.1.0"
edition = "2021"
publish = false

[dependencies]
pulldown-cmark = { version = "0.13", default-features = false, features = ["html"] }
gray_matter = "0.3"
serde = { version = "1", features = ["derive"] }
http = "1"
walkdir = "2"
clap = { version = "4", features = ["derive"] }
