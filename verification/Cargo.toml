[package]
name = "driver"
version = "0.1.0"
edition = "2021"
publish = false

[dependencies]
embedded-hal = "=1.0.0"
log = "=0.4.34"
