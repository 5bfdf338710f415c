[package]
name = "sketch_canvas"
version = "0.1.0"
edition = "2021"
publish = false

[dependencies]
bevy = { version = "0.14", default-features = false }
guard_macros = "1.0.2"
