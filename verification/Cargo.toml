[package]
name = "sail"
version = "0.1.0"
edition = "2021"
publish = false

[dependencies]
regex = "1"
rand = "0.9"
rand_chacha = "0.9"
datafusion = { version = "50", default-features = false }
datafusion-common = { version = "50", default-features = false }
datafusion-expr = { version = "50", default-features = false }
datafusion-expr-common = "50"
async-trait = "0.1"
futures = "0.3"
