[package]
name = "bug"
version = "0.1.0"
edition = "2021"
publish = false

[dependencies]
hashbrown = "=0.17.1"
rustc-hash = "=2.1.3"
once_cell = "=1.21.4"
