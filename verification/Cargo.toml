[package]
name = "siglus_scene_vm"
version = "0.1.0"
edition = "2021"
publish = false

[dependencies]
ab_glyph = "=0.2.32"
anyhow = "=1.0.104"
chrono = "=0.4.45"
egui = "=0.28.1"
egui-wgpu = "=0.28.1"
foreign-types = "=0.5.0"
image = { version = "=0.25.10", default-features = false, features = ["png", "jpeg", "bmp", "gif", "webp", "ico", "tga"] }
kira = { version = "=0.9.6", default-features = false, features = ["wav", "ogg", "mp3", "flac"] }
log = "=0.4.35"
metal = "=0.28.0"
pollster = "0.3"
ureq = { version = "=2.12.1", default-features = false, features = ["tls"] }
wgpu = "=0.20.1"
winit = "0.31.0-beta.2"
