[package]
name = "cluster_session"
version = "0.1.0"
edition = "2021"
publish = false

[dependencies]
redis = { version = "0.23", default-features = false, features = ["aio", "tokio-comp", "cluster-async"] }
redis_pool = { version = "=0.2.1", features = ["cluster"] }
async-trait = "0.1"
