[package]
name = "multiversion"
version = "0.1.0"
edition = "2021"
publish = false

[dependencies]
target-features = "=0.1.6"
syn = { version = "=2.0.119", features = ["full", "visit-mut", "extra-traits"] }
quote = "=1.0.47"
proc-macro2 = "=1.0.107"
rustversion = "=1.0.23"
regex = "1"
