[package]
name = "mdp"
version = "0.1.0"
edition = "2021"
publish = false

[dependencies]
pulldown-cmark = { version = "0.12", default-features = false }
crossterm = "0.28"
clap = "4"
