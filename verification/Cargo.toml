[package]
name = "gitignore_nuke"
version = "0.1.0"
edition = "2021"
publish = false

[dependencies]
ignore = "*"
crossbeam-deque = "*"
crossbeam-utils = "*"
anyhow = "*"
num_cpus = "*"
num-format = "*"
structopt = "*"
