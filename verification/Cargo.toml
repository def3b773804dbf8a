[package]
name = "source_mapped_errors"
version = "0.1.0"
edition = "2021"
publish = false

[dependencies]
serde_json = "1"
