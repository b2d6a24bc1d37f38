[package]
name = "blog"
version = "0.1.0"
edition = "2021"
publish = false

[dependencies]
anyhow = "=1.0.104"
kuchiki = "=0.8.1"
resvg = "=0.48.1"
rss = { version = "=2.1.2", features = ["atom"] }
serde = { version = "=1.0.229", features = ["derive"] }
serde_json = "=1.0.151"
tiny-skia = "=0.12.0"
unicode-segmentation = "=1.13.3"
ureq = { version = "=3.4.2", default-features = false }
url = "=2.5.8"
usvg = "=0.48.1"
