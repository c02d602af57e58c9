[package]
name = "zalgo"
version = "0.2.0"
edition = "2021"
publish = false

[dependencies]
rand = "0.4"
structopt = "0.3"
colored = "2"

[dev-dependencies]
lipsum = "0.9"
