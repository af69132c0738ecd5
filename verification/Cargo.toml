[package]
name = "hammersync"
version = "0.1.0"
edition = "2021"
publish = false

[dependencies]
fxhash = "0.2"
rust-crypto = "0.2"
bincode = "1"
serde = "1"
serde_derive = "1"
serde_json = "1"
walkdir = "2"
rayon = "1"
