[package]
name = "river_core"
version = "0.1.0"
edition = "2021"
publish = false

[dependencies]
ed25519-dalek = { version = "2", features = ["rand_core"] }
bs58 = "0.5"
rand = "0.8"
serde = { version = "1", features = ["derive"] }
ciborium = "0.2"
freenet-scaffold = "*"
freenet-stdlib = "*"
