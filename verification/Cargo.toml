[package]
name = "triple_osc"
version = "0.1.0"
edition = "2021"
publish = false

[dependencies]
rand_pcg = "=0.3.1"
