[package]
name = "defmt_core"
version = "0.1.0"
edition = "2021"
publish = false

[dependencies]
anyhow = "1"
clap = { version = "4", features = ["derive"] }
colored = "2"
once_cell = "1"
proc-macro2 = "1"
quote = "1"
similar = "2"
syn = "2"
