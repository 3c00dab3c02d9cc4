[package]
name = "agb"
version = "0.1.0"
edition = "2021"
publish = false

[dependencies]
rustc-hash = { version = "2", default-features = false }
postcard = { version = "1", default-features = false, features = ["alloc"] }
serde = { version = "1", default-features = false, features = ["derive", "alloc"] }
