[package]
name = "cbor-diag"
version = "0.1.0"
edition = "2021"
publish = false

[dependencies]
data-encoding = "2"
once_cell = "1"

[dev-dependencies]
nom = { version = "5", default-features = false, features = ["std"] }
