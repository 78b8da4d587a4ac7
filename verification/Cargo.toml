[package]
name = "tau"
version = "0.1.0"
edition = "2021"
publish = false

[dependencies]
crossbeam-queue = "0.3"
crossterm = "*"
futures-core = "0.3"
libc = "0.2"
pin-project-lite = "0.2"
polling = "3"
serde = { version = "1", features = ["derive"] }
serde_json = "1"
socket2 = { version = "*", features = ["all"] }
unicode-segmentation = "1"
unicode-width = "0.2"
