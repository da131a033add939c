[package]
name = "dns_benchmark"
version = "0.1.0"
edition = "2021"
publish = false

[dependencies]
anyhow = "*"
clap = { version = "*", features = ["derive"] }
console = "*"
csv = "*"
directories = "*"
hickory-resolver = "*"
indicatif = "*"
parking_lot = "*"
quick-xml = "*"
serde = { version = "*", features = ["derive"] }
serde_json = "*"
tabled = "*"
thiserror = "*"
tokio = { version = "*", features = ["rt-multi-thread", "macros", "sync", "time"] }
toml = "*"
