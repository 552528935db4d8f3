[package]
name = "row_fingerprint"
version = "0.1.0"
edition = "2021"
publish = false

[dependencies]
bytes = "=1.12.1"
fasthash = "=0.4.0"
itertools = "=0.10.5"
md5 = "=0.7.0"
pgrx = "=0.16.1"
seahash = "=4.1.0"
serde = { version = "=1.0.229", features = ["derive"] }
