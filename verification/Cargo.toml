[package]
name = "alarms_dispatcher"
version = "0.1.0"
edition = "2021"
publish = false

[dependencies]
anyhow = "*"
async-trait = "*"
bip32 = { version = "*", features = ["bip39"] }
cosmrs = { version = "=0.22.0", features = ["cosmwasm"] }
reqwest = { version = "=0.13.5", default-features = false, features = ["json"] }
serde = { version = "*", features = ["derive"] }
serde-json-wasm = "*"
serde_json = "*"
thiserror = "*"
tokio = { version = "*", features = ["macros", "rt-multi-thread", "time", "io-std", "io-util", "fs"] }
toml = "=1.1.6"
tracing = "*"
tracing-appender = "*"
tracing-subscriber = "*"
