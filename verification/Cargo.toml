[package]
name = "rgb9e5_ktx2"
version = "0.1.0"
edition = "2021"
publish = false

[dependencies]
bevy = { version = "=0.18.1", default-features = false, features = ["bevy_asset", "bevy_image", "exr", "hdr", "ktx2"] }
clap = { version = "=4.6.7", features = ["derive"] }
wgpu-types = "=27.0.1"

[dev-dependencies]
half = "=2.7.1"
ktx2 = "=0.4.0"
