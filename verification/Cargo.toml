[package]
name = "videoplayer"
version = "0.1.0"
edition = "2021"
publish = false

[dependencies]
resize = "=0.8.9"
rgb = "=0.8.53"
termion = "=4.0.6"
parking_lot = "=0.12.5"
clap = { version = "=4.6.7", features = ["derive"] }
defer = "=0.2.1"
