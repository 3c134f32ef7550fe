[package]
name = "docsniffer"
version = "0.4.0"
edition = "2021"
publish = false

[dependencies]
regex = "=1.13.1"
chrono = "=0.4.45"
sha2 = "=0.11.1"
serde = { version = "=1.0.229", features = ["derive"] }
serde_json = "=1.0.154"
walkdir = "=2.5.0"
tantivy = "=0.22.1"
zip = "=9.2.2"
calamine = "=0.38.0"
pdf-extract = "=0.12.1"
office_oxide = "=0.1.16"
encoding_rs = "=0.8.44"
chardetng = "=0.1.17"
dirs = "=7.0.0"
notify = "=8.2.1"
rayon = "=1.12.0"
