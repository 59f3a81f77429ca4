[package]
name = "ndir_sensor"
version = "0.1.0"
edition = "2021"
publish = false

[dependencies]
imxrt-log = "0.1"
log = "0.4"
rtic = { version = "2", features = ["thumbv7-backend"] }
rtic-monotonics = { version = "1", features = ["cortex-m-systick"] }
teensy4-bsp = "0.5"
teensy4-panic = "0.2"
ufmt = "0.2"
