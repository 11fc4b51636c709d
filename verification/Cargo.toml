[package]
name = "beacon_core"
version = "0.1.0"
edition = "2021"
publish = false

[dependencies]
sha2 = "0.10"
serde = "1"
serde_derive = "1"
clap = "4"
dirs = "5"
