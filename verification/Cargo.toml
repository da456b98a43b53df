[package]
name = "hft"
version = "0.1.0"
edition = "2021"
publish = false

[dependencies]
argh = "*"
arrayvec = "0.7"
color-eyre = "0.6"
core_affinity = "0.8"
crossbeam-channel = "0.5"
eyre = "0.6"
hdrhistogram = "7"
human_format = "1"
itertools = "*"
pprof = { version = "0.14", features = ["flamegraph"] }
quanta = "0.12"
rand = "0.9"
rtrb = "0.3"
serde = { version = "1", features = ["derive"] }
serde_json = "1"
strum = { version = "0.27", features = ["derive"] }
tracing = "0.1"
tracing-subscriber = "0.3"
