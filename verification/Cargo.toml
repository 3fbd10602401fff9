[package]
name = "ghostty-pane-splitter"
version = "0.1.0"
edition = "2021"
publish = false

[dependencies]
enigo = "*"
