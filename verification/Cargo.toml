[package]
name = "intfic"
version = "0.1.0"
edition = "2021"
publish = false

[dependencies]
colored = "*"
dirs = "*"
rand = "*"
ron = "*"
serde = { version = "*", features = ["derive"] }
text_io = "*"
