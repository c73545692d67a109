[package]
name = "engine"
version = "0.1.0"
edition = "2021"
publish = false

[dependencies]
bitflags = "=1.3.2"
gl = "=0.14.0"
sdl2 = { version = "=0.38.0", features = ["ttf", "mixer"] }
