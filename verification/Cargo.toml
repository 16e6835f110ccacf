[package]
name = "siege_font"
version = "0.1.0"
edition = "2021"
publish = false

[dependencies]
distance-field = "=0.2.1"
image = "=0.24.9"
ddsfile = "=0.6.0"
font-atlas = "=0.1.4"
