[package]
name = "eb"
version = "0.1.0"
edition = "2021"
publish = false

[dependencies]
acu = "=0.3.6"
anyhow = "=1.0.104"
async-trait = "=0.1.92"
bytes = "=1.12.1"
clap = { version = "=4.6.7", features = ["cargo"] }
crossterm = { version = "=0.25.0", features = ["event-stream"] }
futures = "=0.3.34"
serde = { version = "=1.0.229", features = ["derive"] }
serde_json = { version = "=1.0.154", features = ["preserve_order"] }
thiserror = "=2.0.21"
tokio = { version = "=1.54.1", features = ["full"] }
tokio-tungstenite = "=0.30.0"
tracing = "=0.1.44"
tracing-subscriber = "=0.3.23"
tui = "=0.19.0"
url = { version = "=2.5.8", features = ["serde"] }
uuid = { version = "=1.29.0", features = ["v4", "serde"] }
xdg = "=3.0.0"
