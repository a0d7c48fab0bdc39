[package]
name = "block_allocator"
version = "0.1.0"
edition = "2021"
publish = false

[dependencies]
rustc-hash = "1.1"
rayon = "1"
parking_lot = "0.12"
derive_more = "0.99"
dashmap = "5"
