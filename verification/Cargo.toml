[package]
name = "cuely"
version = "0.1.0"
edition = "2021"
publish = false

[dependencies]
bincode = "=1.3.3"
indicatif = { version = "0.17", features = ["rayon"] }
rayon = "=1.12.0"
serde = { version = "=1.0.229", features = ["derive"] }
tantivy = { version = "=0.18.1", default-features = false }
tracing = "=0.1.44"
