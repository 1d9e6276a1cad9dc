[package]
name = "rdedup_lib"
version = "0.1.0"
edition = "2021"
publish = false

[dependencies]
chrono = "0.4"
reqwest = { version = "0.12", default-features = false, features = ["blocking", "json"] }
serde = { version = "1", features = ["derive"] }
sgdata = "0.2"
url = "2"

[dev-dependencies]
hex = "0.4"
rand = "0.9"
sha2 = "0.10"
