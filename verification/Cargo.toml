[package]
name = "kildin"
version = "0.1.0"
edition = "2021"
publish = false

[dependencies]
rand = "*"
rayon = "*"
rusqlite = { version = "*", features = ["bundled"] }
toml = "*"
serde = { version = "*", features = ["derive"] }
serde_derive = "*"
reqwest = { version = "*", default-features = false, features = ["blocking"] }
