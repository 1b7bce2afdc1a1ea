[package]
name = "tydi"
version = "0.1.0"
edition = "2021"
publish = false

[dependencies]
indexmap = "1"
log = "0.4"
structopt = "0.3"
