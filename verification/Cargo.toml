[package]
name = "fig_parser"
version = "0.1.0"
edition = "2021"
publish = false

[dependencies]
kiwi-schema = "=0.2.1"
flate2 = "=1.1.10"
zstd = "=0.13.4"
zip = { version = "=2.6.1", default-features = false, features = ["deflate", "zstd"] }
serde = { version = "=1.0.229", features = ["derive"] }
serde_json = "=1.0.154"
thiserror = "=1.0.69"
lyon_path = "=1.0.19"
lyon_tessellation = "=1.0.23"
bytemuck = { version = "=1.25.2", features = ["derive"] }
wgpu = "=0.20.1"
resvg = "=0.44.0"
