[package]
name = "drs_studio"
version = "0.1.0"
edition = "2021"
publish = false

[dependencies]
clap = "=2.34.0"
number_prefix = "=0.2.8"
