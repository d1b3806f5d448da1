[package]
name = "trendr"
version = "0.1.0"
edition = "2021"
publish = false

[dependencies]
chrono = "0.4"
serde = { version = "1", features = ["derive"] }
serde_json = "1"
reqwest = { version = "0.12", default-features = false, features = ["json"] }
tokio = { version = "1", features = ["rt", "rt-multi-thread", "macros", "time"] }
base64 = "0.22"
urlencoding = "2"
directories = "*"
log = "0.4"
rusqlite = { version = "*", features = ["bundled"] }
