[package]
name = "monux"
version = "0.1.0"
edition = "2021"
publish = false

[dependencies]
anyhow = "1"
chrono = "0.4"
clap = { version = "4", features = ["derive"] }
crossterm = "0.28"
dirs = "6"
notify = "8"
pulldown-cmark = "0.13"
ratatui = "0.29"
redb = "3"
walkdir = "2"
