[package]
name = "skimmer"
version = "0.1.0"
edition = "2021"
publish = false

[dependencies]
fuzzy-matcher = "0.3"
clap = { version = "4", features = ["derive"] }
rand = "0.8"
tmux_interface = "0.3"
tuikit = "0.5"
