[package]
name = "loss"
version = "0.1.0"
edition = "2021"
publish = false

[dependencies]
anyhow = "=1.0.104"
chrono = "=0.4.31"
crossterm = "=0.27.0"
fern = "=0.6.2"
log = "=0.4.34"
regex = "=1.13.1"
