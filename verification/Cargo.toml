[package]
name = "webauthn_account"
version = "0.1.0"
edition = "2021"
publish = false

[dependencies]
soroban-sdk = { version = "=29.0.1", features = ["testutils"] }
serde = { version = "=1.0.229", default-features = false, features = ["derive"] }
serde-json-core = { version = "=0.7.0", default-features = false }

[dev-dependencies]
p256 = { version = "=0.13.2", default-features = false, features = ["ecdsa"] }
