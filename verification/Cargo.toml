[package]
name = "vac_core"
version = "0.1.0"
edition = "2021"
publish = false

[dependencies]
regex = "*"
alkana-rs = "*"
isolang = "*"
serde = { version = "*", features = ["derive"] }
serde_json = "*"
toml = "*"
anyhow = "*"
reqwest = { version = "*", default-features = false, features = ["blocking", "json", "rustls-tls"] }
