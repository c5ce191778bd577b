[package]
name = "mesh_llm"
version = "0.1.0"
edition = "2021"
publish = false

[dependencies]
anyhow = "1"
serde = { version = "1", features = ["derive"] }
serde_json = "1"
reqwest = { version = "0.12", default-features = false, features = ["json"] }
futures-util = "0.3"
tokio = { version = "1", features = ["net", "io-util", "rt", "sync"] }
urlencoding = "2"
