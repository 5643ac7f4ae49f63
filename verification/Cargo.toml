[package]
name = "rem-launcher"
version = "0.1.0"
edition = "2021"
publish = false

[dependencies]
async-trait = "=0.1.92"
keyring = "=3.6.3"
reqwest = { version = "=0.12.28", features = ["json"] }
serde = { version = "=1.0.229", features = ["derive"] }
serde_json = "=1.0.154"
sha1 = "=0.10.7"
sha2 = "=0.10.9"
thiserror = "=2.0.21"
tokio = { version = "1", features = ["rt-multi-thread", "macros"] }
urlencoding = "=2.1.3"
zip = { version = "2", default-features = false, features = ["deflate"] }
