[package]
name = "script_dsl"
version = "0.1.0"
edition = "2021"
publish = false

[dependencies]
bitcoin = "*"
indexmap = "*"
anyhow = "*"
