[package]
name = "gpt2cursor"
version = "0.4.3"
edition = "2021"
publish = false

[dependencies]
serde = { version = "1", features = ["derive"] }
serde_json = "1"
dirs = "5"
portable-pty = "0.8"
libc = "0.2"
image = { version = "0.25", default-features = false, features = ["png"] }
cocoa = "0.26"
objc = "0.2"
