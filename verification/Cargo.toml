[package]
name = "spark_bert"
version = "0.1.0"
edition = "2021"
publish = false

[dependencies]
serde_json = "*"
serde = { version = "*", features = ["derive"] }
clap = { version = "*", features = ["derive"] }
tantivy = "*"
candle-core = "*"
candle-nn = "*"
candle-transformers = "*"
tokenizers = "*"
faiss-sys = "*"

[dev-dependencies]
float8 = "*"
