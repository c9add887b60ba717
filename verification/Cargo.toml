[package]
name = "emd_hypothesis_testing"
version = "0.1.0"
edition = "2021"
publish = false

[dependencies]
rand = "0.8"
ndarray = "*"
process_mining = "*"
chrono = "*"
indicatif = "*"
thiserror = "*"
