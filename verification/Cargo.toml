[package]
name = "muon_decoder"
version = "0.1.0"
edition = "2021"
publish = false

[dependencies]
chrono = { version = "0.4.45", default-features = false, features = ["alloc", "std"] }
serde_json = "1.0.154"
geo = { version = "0.29.3", default-features = false }
geo-types = "0.7.20"
rayon = "1.10.0"
dotenvy = "0.15.7"
image = { version = "0.24.9", default-features = false, features = ["png"] }
