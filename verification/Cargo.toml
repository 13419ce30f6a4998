[package]
name = "unreal_tools"
version = "0.1.0"
edition = "2021"
publish = false

[dependencies]
base64 = "=0.22.1"
image = { version = "=0.25.10", default-features = false, features = ["tga"] }
image_dds = "=0.7.2"
png = "=0.17.16"
rayon = "=1.12.0"
serde = { version = "=1.0.229", features = ["derive"] }
serde_json = "=1.0.154"

[dev-dependencies]
link-cplusplus = { version = "=1.0.12", features = ["libstdc++"] }
