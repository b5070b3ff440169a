[package]
name = "cfmm_router"
version = "0.1.0"
edition = "2021"
publish = false

[dependencies]
anyhow = "1"
cosmwasm-schema = "1.5"
cosmwasm-std = "1.5"
liblbfgs = "*"
thiserror = "1"
