[package]
name = "arcturus"
version = "0.1.0"
edition = "2021"
publish = false

[dependencies]
heapless = "0.8"
embedded-hal = "1.0"
libm = "0.2"
anyhow = "1"
clap = { version = "4", features = ["derive"] }
serialport = { version = "4", default-features = false }
