[package]
name = "qvd"
version = "0.1.0"
edition = "2021"
publish = false

[dependencies]
bitvec = "*"
rayon = "1"
quick-xml = { version = "*", features = ["serialize"] }
serde = { version = "1", features = ["derive"] }
