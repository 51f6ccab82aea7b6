[package]
name = "warnalyzer"
version = "0.1.0"
edition = "2021"
publish = false

[dependencies]
chashmap = "2.2"
intervaltree = "0.2"
log = "0.4"
pretty_env_logger = "*"
proc-macro2 = { version = "1", features = ["span-locations"] }
protobuf = "3"
rayon = "1"
scip = "*"
serde = { version = "1", features = ["derive"] }
serde_json = "1"
syn = { version = "1", features = ["full", "visit"] }
