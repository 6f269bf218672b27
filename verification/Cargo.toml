[package]
name = "phase_score"
version = "0.1.0"
edition = "2021"
publish = false

[dependencies]
cli-table = "0.4"
structopt = "0.3"
