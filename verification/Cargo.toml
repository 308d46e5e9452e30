[package]
name = "rlp_derive"
version = "0.1.0"
edition = "2021"
publish = false

[dependencies]
alloy-rlp = "0.3"
proc-macro2 = "1"
quote = "1"
syn = { version = "2", features = ["full", "extra-traits"] }
