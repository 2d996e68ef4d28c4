[package]
name = "stm32_firmware_loader"
version = "0.1.0"
edition = "2021"
publish = false

[dependencies]
clap = "3"
gpio-cdev = "0.6"
log = "0.4"
parse_int = "0.2"
serialport = { version = "4", default-features = false }
