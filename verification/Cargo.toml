[package]
name = "parsitext"
version = "0.1.0"
edition = "2021"
publish = false

[dependencies]
aho-corasick = "1"
regex = "1"
jalali-calendar = "*"
rayon = "1"
serde = { version = "1", features = ["derive"] }
tantivy = { version = "*", default-features = false }
