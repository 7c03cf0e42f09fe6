[package]
name = "twinleaf"
version = "0.1.0"
edition = "2021"
publish = false

[dependencies]
glob = "0.3"
clap = { version = "4", features = ["derive"] }
chrono = "0.4"
crossbeam = "0.8"
indicatif = "0.17"
memmap2 = "0.9"
hdf5 = "0.8"
