[package]
name = "compiler_bot"
version = "0.1.0"
edition = "2021"
publish = false

[dependencies]
wandbox = "=0.2.0"
godbolt = "=0.2.0"
reqwest = { version = "=0.13.5", features = ["json"] }
tokio = { version = "=1.53.2", features = ["rt", "time"] }
serde = { version = "=1.0.229", features = ["derive"] }
strip-ansi-escapes = "=0.2.1"
