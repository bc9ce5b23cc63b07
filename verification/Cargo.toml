[package]
name = "clack"
version = "0.1.0"
edition = "2021"
publish = false

[dependencies]
arc-swap = "1"
cpal = "*"
dirs = "*"
fastrand = "2"
hound = "3"
macos-accessibility-client = "*"
muda = "*"
objc2 = "*"
objc2-app-kit = "*"
objc2-core-foundation = "*"
objc2-core-graphics = "*"
objc2-foundation = "*"
objc2-service-management = "*"
rtrb = "*"
serde = { version = "1", features = ["derive"] }
serde_json = "1"
