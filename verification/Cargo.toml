[package]
name = "qck_usb"
version = "0.1.0"
edition = "2021"
publish = false

[dependencies]
rusb = { version = "*", features = ["vendored"] }
libusb1-sys = { version = "*", features = ["vendored"] }
termion = "*"
clap = "2.33"
