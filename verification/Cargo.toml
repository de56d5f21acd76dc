[package]
name = "vga_text"
version = "0.1.0"
edition = "2021"
publish = false

[dependencies]
lazy_static = "1"
spin = "0.9"
volatile = "0.2"
