[package]
name = "pool_miner"
version = "0.1.0"
edition = "2021"
publish = false

[dependencies]
bs58 = "=0.5.1"
colored = "=2.2.0"
drillx = "=2.2.0"
num_cpus = "=1.17.0"
ore-api = "=2.7.0"
rand = "=0.8.8"
solana-program = "=1.18.26"
steel = "=2.1.1"
tokio = { version = "1", default-features = false, features = ["macros", "rt-multi-thread"] }
