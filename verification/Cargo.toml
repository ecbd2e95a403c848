[package]
name = "wgpui"
version = "0.1.0"
edition = "2021"
publish = false

[dependencies]
rustc-hash = "2"
wgpu = "*"
bytemuck = { version = "1", features = ["derive"] }
anyhow = "1"
log = "0.4"
serde = { version = "1", features = ["derive"] }
schemars = "*"
syn = { version = "2", features = ["full"] }
quote = "1"
proc-macro2 = "1"
