[package]
name = "alibaba_graph"
version = "0.1.0"
edition = "2021"
publish = false

[dependencies]
anyhow = "1"
csv = "1"
dotenv = "0.15"
env_logger = "0.10"
flate2 = "1"
log = "0.4"
pyo3 = "0.20"
pyo3-log = "0.9"
raphtory = { version = "0.7", default-features = false }
rayon = "1"
reqwest = { version = "0.11", default-features = false, features = ["blocking", "rustls-tls"] }
serde = { version = "1", features = ["derive"] }
tar = "0.4"
