[package]
name = "projekttage"
version = "0.1.0"
edition = "2021"
publish = false

[dependencies]
good_lp = { version = "1", default-features = false, features = ["microlp"] }
regex = "1"
unicode-normalization = "0.1"
uuid = { version = "1", features = ["serde"] }
serde = { version = "1", features = ["derive"] }
serde_json = "1"
