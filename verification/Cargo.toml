[package]
name = "txrace"
version = "0.1.0"
edition = "2021"
publish = false

[dependencies]
url = "2"
ethers = { version = "=2.0.14", default-features = false, features = ["ws", "ipc"] }
tokio = { version = "1", features = ["macros", "rt-multi-thread"] }
clap = { version = "4", features = ["derive"] }
eyre = "0.6"
console = "0.15"
tracing = "0.1"
tracing-subscriber = "0.3"
async-trait = "0.1"
serde = "1"
serde_json = "1"
thiserror = "1"
