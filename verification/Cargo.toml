[package]
name = "receipt_verifier"
version = "0.1.0"
edition = "2021"
publish = false

[dependencies]
alloy-consensus = "1"
alloy-eips = "1"
alloy-primitives = "1"
alloy-rlp = "0.3"
alloy-rpc-types-eth = "1"
alloy-trie = "0.9"
axum = { version = "0.8", default-features = false, features = ["http1", "json", "tokio", "tracing", "matched-path", "original-uri"] }
dotenvy = "0.15"
fastrand = "2"
reqwest = { version = "0.12", default-features = false, features = ["json"] }
serde = { version = "1", features = ["derive"] }
serde_json = "1"
thiserror = "2"
tokio = { version = "1", features = ["macros", "rt-multi-thread", "net"] }
tracing = "0.1"
tracing-subscriber = { version = "0.3", default-features = false, features = ["std", "fmt", "env-filter"] }
url = "2"
