[package]
name = "address_memo"
version = "0.1.0"
edition = "2021"
publish = false

[dependencies]
clap = { version = "*", features = ["derive"] }
hotwatch = "*"
mac-notification-sys = "*"
notify-rust = "*"
rdev = "*"
serde = { version = "*", features = ["derive"] }
serde_json = "*"
