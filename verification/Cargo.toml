[package]
name = "fast"
version = "0.1.0"
edition = "2021"
publish = false

[dependencies]
ratatui = "*"
sysinfo = "*"
gfxinfo = "*"
battery = "*"
