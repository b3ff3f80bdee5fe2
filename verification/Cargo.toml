[package]
name = "tox_net_crypto"
version = "0.1.0"
edition = "2021"
publish = false

[dependencies]
sodiumoxide = { version = "=0.2.7", default-features = false, features = ["std"] }
nom = { version = "=5.1.3", default-features = false, features = ["std"] }
cookie-factory = "=0.3.3"

[dev-dependencies]
quickcheck = { version = "1", default-features = false }
