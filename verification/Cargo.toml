[package]
name = "pow_ledger"
version = "0.1.0"
edition = "2021"
publish = false

[dependencies]
sha2 = "*"
chrono = "*"
fastrand = "*"
rand = "*"
serde = { version = "*", features = ["derive"] }
serde_json = "*"
futures = "*"
actix = "*"
actix-rt = "*"
actix-web = "*"
awc = "*"
openssl = "*"
