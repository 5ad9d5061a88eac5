[package]
name = "glossary_lookup"
version = "0.1.0"
edition = "2021"
publish = false

[dependencies]
select = "*"
reqwest = { version = "*", features = ["blocking"] }
colored = "*"
quick-error = "*"
