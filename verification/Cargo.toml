[package]
name = "chain_indexer"
version = "0.1.0"
edition = "2021"
publish = false

[dependencies]
bitcoincore-rpc = "*"
structopt = "*"
env_logger = "*"
