[package]
name = "snapkeep"
version = "0.1.0"
edition = "2021"
publish = false

[dependencies]
jiff = "0.2"
anyhow = "1"
rustix = { version = "*", features = ["fs"] }
linux-raw-sys = { version = "*", features = ["btrfs", "ioctl", "general"] }
palc = "*"
