[package]
name = "icon_bundler"
version = "0.1.0"
edition = "2021"
publish = false

[dependencies]
gvdb = { version = "=0.10.1", features = ["gresource"] }
walkdir = "=2.5.0"

[dev-dependencies]
flate2 = "*"
