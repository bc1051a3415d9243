[package]
name = "candy"
version = "0.1.0"
edition = "2021"
publish = false

[dependencies]
gif = "=0.14.2"
libc = "=0.2.191"
openh264 = "=0.9.9"
peniko = "=0.6.1"
png = "=0.18.1"
pollster = "=1.0.1"
rav1e = { version = "=0.8.1", default-features = false, features = ["threading"] }
resvg = "=0.49.0"
serde = { version = "=1.0.229", features = ["derive"] }
serde_json = "=1.0.154"
tiny-skia = "=0.12.0"
typst-syntax = "=0.15.1"
usvg = "=0.49.0"
vello = "=0.7.0"
vello_svg = "=0.9.0"
wgpu = "=27.0.1"
