[package]
name = "zero_shell"
version = "0.1.0"
edition = "2021"
publish = false

[dependencies]
chrono = "0.4"
ctrlc = "3"
nix = { version = "0.29", features = ["user", "fs"] }
