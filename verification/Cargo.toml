[package]
name = "packed_display_buffer"
version = "0.1.0"
edition = "2021"
publish = false

[dependencies]
embedded-graphics-core = "0.4"

[dev-dependencies]
embedded-graphics = "0.8"
rand = "0.8"
tinybmp = "0.5"
