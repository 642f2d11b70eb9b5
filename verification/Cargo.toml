[package]
name = "phimakor"
version = "0.1.0"
edition = "2021"
publish = false

[dependencies]
regex = "=1.13.1"
image = { version = "=0.25.10", default-features = false, features = ["png", "jpeg", "webp", "bmp"] }
texpresso = "=2.0.2"
fastblur = "=0.1.1"
serde_json = "=1.0.154"
serde = { version = "=1.0.229", features = ["derive"] }
serde_yaml = "=0.9.34+deprecated"
glslang = "=0.9.1"
fontdue = "=0.9.5"
ttf-parser = { version = "=0.25.1", default-features = false, features = ["opentype-layout", "no-std-float"] }
wgpu = { version = "=30.0.1", features = ["spirv"] }
winit = "=0.30.13"
softbuffer = "=0.4.8"
pollster = "=0.4.0"
rfd = "=0.17.2"
zip = { version = "=9.2.2", default-features = false, features = ["deflate"] }
rcgen = { version = "=0.14.10", default-features = false, features = ["ring", "pem", "crypto"] }
rustls = { version = "=0.23.46", default-features = false, features = ["ring", "std", "tls12", "logging"] }
anyhow = "=1.0.104"
tracing = "=0.1.44"
tracing-subscriber = { version = "=0.3.23", features = ["env-filter"] }
bytemuck = { version = "=1.25.2", features = ["derive"] }
rayon = "=1.12.0"
