[package]
name = "thor"
version = "0.1.0"
edition = "2021"
publish = false

[dependencies]
sha1 = "0.10"
rand = "0.8"
tokio = { version = "1", features = ["net", "time", "rt-multi-thread", "macros"] }
async-trait = "0.1"
