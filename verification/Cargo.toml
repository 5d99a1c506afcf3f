[package]
name = "dsql-lint"
version = "0.1.0"
edition = "2021"
publish = false

[dependencies]
sqlparser = { version = "=0.63.0", features = ["serde"] }
serde = { version = "=1.0.229", features = ["derive"] }
serde_json = { version = "=1.0.154", features = ["unbounded_depth"] }
clap = { version = "=4.6.7", features = ["derive"] }
tempfile = "=3.27.0"
