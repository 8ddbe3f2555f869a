[package]
name = "opc_agent"
version = "0.1.0"
edition = "2021"
publish = false

[dependencies]
serde = { version = "1", features = ["derive"] }
serde_json = "1"
rusqlite = { version = "0.32", features = ["bundled"] }
reqwest = { version = "0.12", features = ["json", "stream"] }
futures-util = "0.3"
vosk = "0.3"
zip = { version = "2", default-features = false, features = ["deflate"] }
