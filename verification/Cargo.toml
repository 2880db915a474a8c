[package]
name = "git-super"
version = "0.1.0"
edition = "2021"
publish = false

[dependencies]
colored = "2"
duct = "0.13"
rust-ini = "0.21"
rayon = "1"
regex = "1"
serde_json = "1"
ureq = { version = "2", features = ["json"] }
walkdir = "2"
