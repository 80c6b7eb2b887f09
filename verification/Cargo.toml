[package]
name = "wgui"
version = "0.1.0"
edition = "2021"
publish = false

[dependencies]
taffy = "=0.7.7"
glam = "=0.34.1"
roxmltree = "=0.21.1"
anyhow = "=1.0.104"
log = "=0.4.34"
