[package]
name = "fibonacci_tree"
version = "0.1.0"
edition = "2021"
publish = false

[dependencies]
clap = { version = "4", features = ["derive"] }
num-bigint = "0.4"
num_cpus = "1"
