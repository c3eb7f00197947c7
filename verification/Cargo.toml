[package]
name = "qnetsim"
version = "0.1.0"
edition = "2021"
publish = false

[dependencies]
bloomfilter = "1"
rand = "0.8"
rand_distr = "0.4"
roots = "*"
zipf = "*"
