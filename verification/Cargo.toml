[package]
name = "foundry_compilers"
version = "0.1.0"
edition = "2021"
publish = false

[dependencies]
md-5 = "0.10"
semver = "=1.0.28"
alloy-primitives = "=1.7.3"
solar-parse = "=0.1.8"
serde = { version = "=1.0.229", features = ["derive"] }
serde_json = "=1.0.154"
thiserror = "=2.0.21"
path-slash = "=0.2.1"
rayon = "=1.12.0"
tokio = { version = "=1.54.1", features = ["fs", "rt"] }
futures-util = "=0.3.34"
