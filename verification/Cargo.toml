[package]
name = "fp"
version = "0.1.0"
edition = "2021"

[dependencies]
argh = "0.1"
crossterm = "0.27"
globwalk = "0.9"
lscolors = { version = "0.17", features = ["crossterm"] }
ratatui = "0.26"
