[package]
name = "federation_merger"
version = "0.1.0"
edition = "2021"
publish = false

[dependencies]
ahash = "=0.8.12"
apollo-compiler = "=1.33.1"
indexmap = "=2.14.2"
itertools = "=0.14.0"
regex = "=1.13.1"
strsim = "=0.11.1"
