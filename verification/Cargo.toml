[package]
name = "pxsum"
version = "0.1.0"
edition = "2021"
publish = false

[dependencies]
blake3 = "=1.8.7"
crossbeam-channel = "=0.5.17"
dactyl = "=0.14.1"
faster-hex = "=0.10.1"
fyi_msg = "=1.6.1"
image = { version = "=0.25.10", default-features = false, features = ["bmp", "gif", "ico", "jpeg", "png", "tiff", "webp"] }
jpeg2k = { version = "=0.10.1", features = ["image"] }
jpegxl-rs = { version = "=0.16.0", features = ["image", "vendored"] }
libavif = "=0.14.0"
trimothy = "=0.10.0"
walkdir = "=2.5.0"
