[package]
name = "marlinflow_utils"
version = "0.1.0"
edition = "2021"
publish = false

[dependencies]
anyhow = "1"
bytemuck = "1"
cozy-chess = "0.3"
memmap = "0.7"
num_cpus = "1"
structopt = "0.3"
