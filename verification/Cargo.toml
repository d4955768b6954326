[package]
name = "pinset"
version = "0.1.0"
edition = "2021"
publish = false

[dependencies]
anyhow = "*"
bs58 = "*"
clap = { version = "*", default-features = false, features = ["cargo", "std"] }
futures = "*"
multihash = "*"
reqwest = { version = "*", default-features = false, features = ["json"] }
serde = { version = "*", features = ["derive"] }
serde_cbor = "*"
serde_json = "*"
tokio = { version = "*", features = ["macros", "rt-multi-thread"] }
