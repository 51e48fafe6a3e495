[package]
name = "ckb_samples"
version = "0.1.0"
edition = "2021"
publish = false

[dependencies]
ckb-std = "*"
blake2b-ref = "*"
blake2b-rs = "0.2.0"
bytes = "1"
log = "0.4"
