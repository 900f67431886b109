[package]
name = "exportbranch"
version = "0.1.8"
edition = "2021"
publish = false

[dependencies]
regex = "1"
clap = { version = "4", features = ["derive"] }
clap_complete = "4"
rayon = "1"

[dev-dependencies]
tempfile = "3"
