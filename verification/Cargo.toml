[package]
name = "harmonize"
version = "0.1.0"
edition = "2021"
publish = false

[dependencies]
ethers-core = "=2.0.14"
tiny-keccak = { version = "=2.0.2", features = ["keccak"] }
ic-cdk = "=0.13.6"
ic-cdk-timers = "=0.8.1"
candid = "=0.10.37"
hex = "=0.4.3"
serde = "=1.0.229"
