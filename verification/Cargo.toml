[package]
name = "shargrila"
version = "0.1.0"
edition = "2021"
publish = false

[dependencies]
clap = "2.33"
csv = "1.1"
rand = "0.7"
rand_core = "0.5"
rand_xorshift = "0.2"
serde = { version = "1.0", features = ["derive"] }
serde_json = "1.0"
