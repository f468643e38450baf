[package]
name = "espr"
version = "0.1.0"
edition = "2021"
publish = false

[dependencies]
itertools = "0.10"
nom = "7"
Inflector = "0.11"
check_keyword = "0.2"
proc-macro2 = "1"
quote = "1"
syn = { version = "1", features = ["full"] }
serde = "1"
