[package]
name = "nettrain"
version = "0.1.0"
edition = "2021"
publish = false

[dependencies]
crossbeam = "0.7"
csv = "1"
derive_builder = "*"
fast-math = "0.1"
itertools = "*"
num_cpus = "1"
quick-error = "1.2"
rand = "0.6"
rand_xorshift = "0.1"
