[package]
name = "wayplover"
version = "0.1.0"
edition = "2021"
publish = false

[dependencies]
evdev = "*"
termion = "*"
serial = "*"
