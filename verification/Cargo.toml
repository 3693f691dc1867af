[package]
name = "embassy-defmt-usb"
version = "0.0.1"
edition = "2021"
publish = false

[dependencies]
critical-section = "=1.2.0"
defmt = { version = "=1.2.0", features = ["encoding-rzcobs"] }
embassy-time = "=0.5.1"
embassy-usb = { version = "=0.6.0", default-features = false }
static_cell = "=2.1.1"
