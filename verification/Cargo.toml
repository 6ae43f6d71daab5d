[package]
name = "text_components"
version = "0.1.0"
edition = "2021"
publish = false

[dependencies]
serde = { version = "1", features = ["derive"] }
serde_json = "1"
databake = { version = "*", features = ["derive"] }
ownable = "*"
heck = "0.5"
quote = "1"
proc-macro2 = "1"
rustc-hash = "2"
