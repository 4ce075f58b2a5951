[package]
name = "laya-candle"
version = "0.1.0"
edition = "2021"
publish = false

[dependencies]
indexmap = { version = "=2.14.2", features = ["serde"] }
unicode-general-category = "=1.1.0"
tokenizers = { version = "=0.23.2", default-features = false, features = ["fancy-regex"] }
serde = { version = "=1.0.229", features = ["derive"] }
serde_json = { version = "=1.0.154", features = ["preserve_order"] }
thiserror = "=2.0.21"
candle-core = "=0.11.1"
candle-nn = "=0.11.1"
clap = { version = "=4.6.7", features = ["derive"] }
