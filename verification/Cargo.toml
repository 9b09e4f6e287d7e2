[package]
name = "pw_autoconnect"
version = "0.1.0"
edition = "2021"
publish = false

[dependencies]
regex = "1"
pipewire = "0.5"
libspa = "0.5"
