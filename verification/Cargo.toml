[package]
name = "pbt"
version = "0.1.0"
edition = "2021"
publish = false

[dependencies]
wyrand = { version = "=0.3.2", default-features = false }
rand_core = "=0.9.5"
rand_xoshiro = "=0.7.0"
futures = "=0.3.34"
