[package]
name = "sq"
version = "0.1.0"
edition = "2021"
publish = false

[dependencies]
slotmap = "=1.1.1"
cgmath = "=0.18.0"
anyhow = "=1.0.104"
bytemuck = "=1.25.2"
smart-default = "=0.7.1"
wgpu = "=24.0.5"
sdl3 = { version = "=0.20.0", features = ["raw-window-handle"] }
tokio = { version = "=1.54.1", features = ["macros", "rt-multi-thread"] }
