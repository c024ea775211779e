[package]
name = "kvs"
version = "0.1.0"
edition = "2021"
publish = false

[dependencies]
dashmap = "5"
sled = "0.34"
rayon = "1"
serde = { version = "1", features = ["derive"] }
serde_json = "1"
clap = { version = "3", features = ["derive"] }
log = "0.4"
stderrlog = "0.5"
