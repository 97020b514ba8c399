[package]
name = "blaze"
version = "0.1.0"
edition = "2021"
publish = false

[dependencies]
dirs = "*"
disk-name = "*"
open = "*"
serde = { version = "1", features = ["derive"] }
slint = { version = "*", default-features = false, features = ["std", "compat-1-2"] }
