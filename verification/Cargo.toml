[package]
name = "runehook"
version = "0.1.0"
edition = "2021"
publish = false

[dependencies]
bitcoin = "=0.32.102"
bitcoincore-rpc = "=0.19.0"
bytes = "=1.12.1"
crossbeam-channel = "=0.5.17"
hiro-system-kit = { version = "=0.3.4", default-features = false, features = ["tokio_helpers"] }
num-bigint = "=0.4.8"
num-traits = "=0.2.19"
ordinals = "=0.0.17"
refinery = { version = "=0.8.16", default-features = false, features = ["tokio-postgres"] }
serde = { version = "=1.0.229", features = ["derive"] }
tokio = { version = "=1.54.1", features = ["rt-multi-thread", "macros", "time"] }
tokio-postgres = "=0.7.18"
zmq = "=0.10.0"
