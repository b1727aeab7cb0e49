[package]
name = "rust_bf"
version = "0.1.0"
edition = "2021"
publish = false

[dependencies]
clap = { version = "4", features = ["derive"] }
cross-xdg = "*"
crossterm = "*"
ctrlc = "*"
nu-ansi-term = "*"
ratatui = "*"
reedline = "*"
thiserror = "*"
