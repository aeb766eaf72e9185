[package]
name = "bevy_svg"
version = "0.16.0"
edition = "2021"
publish = false

[dependencies]
svgtypes = "0.15"
usvg = "0.45"
lyon_tessellation = "1.0"
lyon_path = "1.0"
lyon_geom = "1.0"
lyon_svg = "0.17"
copyless = "0.1"
thiserror = "1.0"
serde = { version = "1.0", features = ["derive"] }
quick-xml = { version = "0.31", features = ["serialize"] }
bevy = { version = "0.16", default-features = false, features = ["bevy_asset", "bevy_render", "bevy_sprite", "bevy_pbr", "bevy_core_pipeline", "bevy_log"] }
