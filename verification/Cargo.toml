[package]
name = "noirc_evaluator"
version = "0.1.0"
edition = "2021"
publish = false

[dependencies]
acvm = "=0.11.0"
hex = "=0.4.3"
serde = "1"
serde_json = "1"
thiserror = "=1.0.69"
