[package]
name = "switzerland_power_calc"
version = "0.1.0"
edition = "2021"
publish = false

[dependencies]
ansi_term = "*"
chrono = "*"
clap = { version = "*", features = ["derive"] }
dashmap = "*"
dotenvy = "*"
hashlink = "*"
itertools = "*"
reqwest = { version = "*", default-features = false, features = ["rustls-tls", "json"] }
rustyline = "*"
rustyline-async = "*"
serde = { version = "*", features = ["derive"] }
serde_cbor = "*"
serde_json = "*"
serenity = "*"
skillratings = "*"
strsim = "*"
thiserror = "*"
tokio = { version = "*", features = ["macros", "rt-multi-thread", "sync", "time"] }
trie-rs = "*"
unic-emoji-char = "*"
url = "*"
