[package]
name = "ruefi"
version = "0.1.0"
edition = "2021"
publish = false

[dependencies]
uefi = { version = "=0.41.0", features = ["alloc"] }
ratatui = { version = "=0.30.2", default-features = false }
embedded-graphics = "=0.8.2"
libm = "=0.2.16"
minifb = "=0.29.0"
gilrs = "=0.11.2"
wavesynth = "*"
