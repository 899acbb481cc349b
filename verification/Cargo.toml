[package]
name = "astrapdf"
version = "0.1.0"
edition = "2021"
publish = false

[dependencies]
lopdf = "*"
pdf-extract = "*"
regex = "*"
csv = "*"
serde = { version = "*", features = ["derive"] }
serde_json = "*"
anyhow = "*"
thiserror = "*"
clap = { version = "*", features = ["derive"] }
colored = "*"
indicatif = "*"
rayon = "*"
