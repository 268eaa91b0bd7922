[package]
name = "pavucontrolrs"
version = "0.1.0"
edition = "2021"
publish = false

[dependencies]
libpulse-binding = "=2.30.1"
ratatui = { version = "=0.30.2", features = ["termion"] }
termion = "=4.0.6"
