[package]
name = "kondor"
version = "0.1.0"
edition = "2021"
publish = false

[dependencies]
clap = { version = "4", features = ["derive"] }
clap_complete = "4"
crossterm = "0.28"
kondo-lib = "*"
ratatui = "0.29"
rayon = "1"
