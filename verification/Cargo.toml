[package]
name = "fddup"
version = "1.0.3"
edition = "2021"
publish = false

[dependencies]
anyhow = "1"
clap = "2"
hex = "0.4"
humansize = "1"
num_cpus = "1"
num-traits = "0.2"
sha2 = "0.9"
tokio = { version = "1", features = ["rt-multi-thread", "macros"] }
