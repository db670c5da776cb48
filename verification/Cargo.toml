[package]
name = "warnet_cli"
version = "0.1.0"
edition = "2021"
publish = false

[dependencies]
anyhow = "*"
base64 = "*"
clap = { version = "*", features = ["derive"] }
jsonrpsee = { version = "*", features = ["http-client"] }
petgraph = "*"
prettytable-rs = "*"
rand = "*"
rust-ini = "*"
serde_json = "*"
tokio = { version = "*", features = ["macros", "rt-multi-thread"] }

[dev-dependencies]
xmltree = "*"
