[package]
name = "eventually"
version = "0.5.0"
edition = "2021"
publish = false

[dependencies]
async-trait = "0.1"
futures = "0.3"
