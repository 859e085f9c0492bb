[package]
name = "polarity_sc_dark"
version = "0.1.0"
edition = "2021"
publish = false

[dependencies]
atomic_float = "0.1"
atomic_refcell = "0.1"
crossbeam = "0.8"
directories = "5"
hound = "3.5"
open = "5"
realfft = "3"
rfd = "0.14"
serde = { version = "1", features = ["derive"] }
serde_json = "1"
triple_buffer = "7"
