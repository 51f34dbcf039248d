[package]
name = "metacritic_lookup"
version = "0.1.0"
edition = "2021"
publish = false

[dependencies]
strsim = "*"
regex = "1"
reqwest = { version = "0.11", default-features = false, features = ["blocking"] }
hyper = { version = "0.14", features = ["server", "http1", "tcp"] }
tokio = { version = "1", features = ["rt-multi-thread"] }
serde = { version = "1", features = ["derive"] }
serde_json = "1"
url = "2"
