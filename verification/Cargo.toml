[package]
name = "pv_bridge"
version = "0.1.0"
edition = "2021"
publish = false

[dependencies]
async-std = "*"
futures = "*"

[dev-dependencies]
rand = "*"
rand_xoshiro = "*"
rand_distr = "*"
