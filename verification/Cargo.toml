[package]
name = "xcap"
version = "0.1.0"
edition = "2021"
publish = false

[dependencies]
mcap = "*"
zstd = "*"
openh264 = "*"
clap = { version = "*", features = ["derive"] }
ctrlc = "*"
image = "*"
pcd-rs = "*"

[dev-dependencies]
cdr = "*"
