[package]
name = "chain_inspector"
version = "0.1.0"
edition = "2021"
publish = false

[dependencies]
alloy = { version = "0.1", default-features = false, features = ["std", "contract", "provider-http", "reqwest", "rpc-types"] }
chrono = { version = "0.4", default-features = false, features = ["clock", "std"] }
clap = { version = "4", default-features = false, features = ["std", "derive", "help", "usage", "error-context"] }
colored = "=2.2.0"
eyre = "0.6"
futures = { version = "0.3", default-features = false, features = ["std"] }
hex = "=0.4.3"
names = { version = "=0.14.0", default-features = false }
serde = { version = "1", features = ["derive"] }
serde_json = "1"
tokio = { version = "1", default-features = false, features = ["macros", "rt-multi-thread"] }
