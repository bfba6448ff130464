[package]
name = "civer"
version = "0.1.0"
edition = "2021"
publish = false

[dependencies]
num-bigint-dig = "=0.6.1"
num-traits = "=0.2.19"
z3 = "=0.10.0"
serde = { version = "=1.0.229", features = ["derive"] }
serde_json = "=1.0.154"
ansi_term = "=0.12.1"
