[package]
name = "tmux_ai_titles"
version = "0.1.0"
edition = "2021"
publish = false

[dependencies]
clap = { version = "4", features = ["derive"] }
fork = "0.2"
signal-hook = "0.3"
