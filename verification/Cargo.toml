[package]
name = "waveshare_epd"
version = "0.1.0"
edition = "2021"
publish = false

[dependencies]
anyhow = "1"
embedded-graphics-core = "0.4"
embedded-hal = "1"
linux-embedded-hal = "0.4"
thiserror = "1"
