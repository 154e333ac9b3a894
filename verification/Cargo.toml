[package]
name = "optibridge-protocol"
version = "0.1.0"
edition = "2021"
publish = false

[dependencies]
critical-section = "=1.2.0"
embedded-storage = "=0.3.2"
embassy-executor = "=0.10.0"
embassy-futures = "=0.1.2"
embassy-time = "=0.5.1"
embassy-usb = "=0.6.0"
