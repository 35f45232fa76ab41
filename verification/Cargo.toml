[package]
name = "redis_client"
version = "0.1.0"
edition = "2021"
publish = false

[dependencies]
napi = "2"
napi-derive = "2"
redis = { version = "0.23", default-features = false }
