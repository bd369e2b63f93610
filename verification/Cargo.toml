[package]
name = "fc_fontations"
version = "0.1.0"
edition = "2021"
publish = false

[dependencies]
skrifa = "*"
read-fonts = "*"
font-types = "*"
