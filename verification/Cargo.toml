[package]
name = "merch_inventory"
version = "0.1.0"
edition = "2021"
publish = false

[dependencies]
cursive = "*"
serde = { version = "1", features = ["derive"] }
serde_json = { version = "1", features = ["arbitrary_precision"] }
