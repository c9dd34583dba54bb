[package]
name = "tab_engine"
version = "0.1.0"
edition = "2021"
publish = false

[dependencies]
rand = "*"
roxmltree = "*"
regex = "*"
rustfft = "*"
augurs-dtw = "*"
