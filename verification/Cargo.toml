[package]
name = "omni"
version = "0.1.0"
edition = "2021"
publish = false

[dependencies]
time = { version = "0.3", features = ["formatting", "parsing"] }
shell-words = "1"
fs2 = "0.4"
