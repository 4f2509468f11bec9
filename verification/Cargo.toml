[package]
name = "iris"
version = "0.1.0"
edition = "2021"
publish = false

[dependencies]
seahash = "=4.1.0"
serde = { version = "=1.0.229", features = ["derive"] }
serde_json = "=1.0.154"
regex = "=1.13.1"
grass = "=0.13.4"
html5ever = "=0.39.0"
markup5ever_rcdom = "=0.39.0"
ureq = { version = "2", features = ["json"] }
flate2 = "1"
tar = "0.4"
walkdir = "2"
