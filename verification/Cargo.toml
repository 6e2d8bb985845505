[package]
name = "purrtty"
version = "0.1.0"
edition = "2021"
publish = false

[dependencies]
vte = "0.13"
unicode-width = "0.2"
serde = { version = "1", features = ["derive"] }
serde_json = "1"
toml = "0.8"
dirs = "4"
anyhow = "1"
tracing = "0.1"
tracing-subscriber = { version = "0.3", default-features = false, features = ["env-filter", "fmt", "std"] }
winit = { version = "0.30", default-features = false, features = ["rwh_06", "x11"] }
wgpu = { version = "22", default-features = false, features = ["wgsl"] }
bytemuck = { version = "1", features = ["derive"] }
font-kit = { version = "0.14", features = ["source-fontconfig-dlopen"] }
pathfinder_geometry = "0.5"
pollster = "0.3"
portable-pty = "0.8"
arboard = { version = "~3.4", default-features = false }
