[package]
name = "rust_usb"
version = "0.1.0"
edition = "2021"
publish = false

[dependencies]
nix = { version = "=0.29.0", features = ["ioctl"] }
udev = "=0.9.3"
thiserror = "=1.0.69"
log = "=0.4.35"
windows-core = "0.58"
