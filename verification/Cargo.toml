[package]
name = "omni"
version = "0.1.0"
edition = "2021"
publish = false

[dependencies]
async-trait = "=0.1.92"
minicbor = { version = "=2.3.0", features = ["std", "derive"] }
ring = "=0.17.14"
reqwest = { version = "=0.12.28", default-features = false, features = ["blocking"] }
