[package]
name = "flow_texpack"
version = "0.1.0"
edition = "2021"
publish = false

[dependencies]
flow-rectpack = "=0.2.9"
image = { version = "=0.25.10", default-features = false, features = ["bmp", "hdr", "jpeg", "png", "tga", "tiff", "webp"] }
log = "=0.4.35"
clap = { version = "=4.6.7", features = ["derive"] }
tokio = { version = "=1.54.1", features = ["full"] }
fern = "=0.7.1"
async-recursion = "=1.2.0"
rich_rust = "*"
