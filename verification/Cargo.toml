[package]
name = "folley"
version = "0.1.0"
edition = "2021"
publish = false

[dependencies]
clap = "=2.34.0"
serialport = { version = "=4.10.1", default-features = false }
pwm-pca9685 = "=0.3.1"
embedded-hal = "=0.2.7"
nrf52840-hal = "=0.14.1"
cortex-m = "=0.7.10"
pyo3 = { version = "0.20", features = ["extension-module"] }
once_cell = "1"

[dev-dependencies]
cobs = "=0.5.1"
postcard = { version = "=0.7.3", features = ["use-std"] }
