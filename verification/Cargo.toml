[package]
name = "anakin"
version = "0.1.0"
edition = "2021"
publish = false

[dependencies]
serde = { version = "=1.0.229", features = ["derive"] }
serde_json = "=1.0.151"
quick-xml = { version = "=0.42.0", features = ["serialize"] }
reqwest = { version = "=0.12.28", default-features = false, features = ["blocking", "json"] }
pyo3 = "=0.20.3"
