[package]
name = "copycopy"
version = "0.3.0"
edition = "2021"
publish = false

[dependencies]
clipboard-rs = "*"
dispatch2 = "*"
objc2-app-kit = "*"
objc2-core-foundation = "*"
objc2-core-graphics = "*"
rdev = "*"
serde = { version = "1", features = ["derive"] }
x-win = "*"
zbus = "5"
