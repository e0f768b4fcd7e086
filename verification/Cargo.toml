[package]
name = "zenoh_flow_perf"
version = "0.1.0"
edition = "2021"
publish = false

[dependencies]
bincode = "=1.3.3"
serde = { version = "=1.0.229", features = ["derive"] }
serde_json = "=1.0.154"
rand = "=0.8.8"
uuid = { version = "=1.29.0", features = ["v4"] }
clap = { version = "=3.2.25", features = ["derive"] }
env_logger = "=0.9.3"
log = "=0.4.35"
async-std = { version = "=1.13.2", features = ["attributes"] }
async-trait = "=0.1.92"
futures = "=0.3.34"
num_cpus = "=1.17.0"
prettytable-rs = "=0.10.0"
uhlc = "=0.9.0"
