[package]
name = "mpc-stark"
version = "0.1.0"
edition = "2021"
publish = false

[dependencies]
crossbeam = "=0.8.5"
futures = "=0.3.34"
rand = "=0.8.8"
sha3 = "=0.10.9"
starknet-types-core = "=1.0.0"
tokio = { version = "=1.54.1", features = ["macros", "rt", "rt-multi-thread", "sync"] }
tracing = { version = "=0.1.44", features = ["log"] }
