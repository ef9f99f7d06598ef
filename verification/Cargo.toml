[package]
name = "sca_rates"
version = "0.1.0"
edition = "2021"
publish = false

[dependencies]
csv = "1"
chrono = "0.4"
