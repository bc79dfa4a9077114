[package]
name = "generic_symbolic_expressions"
version = "0.1.0"
edition = "2021"

[dependencies]
serde = "=0.8.23"
