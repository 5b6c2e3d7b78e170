[package]
name = "mdns_query"
version = "0.1.0"
edition = "2021"
publish = false

[dependencies]
rand = "0.8"
trust-dns-proto = { version = "0.23", default-features = false }
