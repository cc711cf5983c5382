[package]
name = "sysx"
version = "0.1.0"
edition = "2021"
publish = false

[dependencies]
anyhow = "1"
chrono = "0.4"
colored = "*"
image = "*"
parking_lot = { version = "*", features = ["deadlock_detection"] }
rand = "=0.9.5"
regex = "=1.13.1"
shell-words = "=1.1.1"
terminal_size = "*"
thiserror = "*"
