[package]
name = "bank_statement_parser"
version = "0.1.0"
edition = "2021"
publish = false

[dependencies]
chrono = { version = "0.4", default-features = false, features = ["std"] }
clap = { version = "4", features = ["derive"] }
pdf-extract = "*"
tempfile = "3"

[dev-dependencies]
nom = "7"
