[package]
name = "rocfl_listing"
version = "0.1.0"
edition = "2021"
publish = false

[dependencies]
anyhow = "1"
chrono = { version = "0.4", default-features = false, features = ["std", "clock"] }
clap = "2"
structopt = "0.3"
termcolor = "1"
