[package]
name = "dtrack"
version = "0.1.0"
edition = "2021"
publish = false

[dependencies]
ic-stable-structures = "=0.7.2"
candid = "=0.10.37"
ic-cdk = "=0.20.3"
icrc-ledger-types = "=0.2.0"
serde = "=1.0.229"
serde_bytes = "=0.11.19"
