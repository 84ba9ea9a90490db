[package]
name = "tact"
version = "0.1.0"
edition = "2021"
publish = false

[dependencies]
unicode-width = "=0.2.3"
base64 = "=0.23.1"
serde_json = "=1.0.154"
serde = { version = "=1.0.229", features = ["derive"] }
ratatui = "=0.30.2"
crossterm = "=0.29.0"
tokio = { version = "=1.54.1", features = ["full"] }
async-openai = { version = "=0.43.0", features = ["chat-completion"] }
arboard = { version = "=3.7.0", default-features = false }
chrono = "=0.4.45"
tui-markdown = { version = "=0.3.13", default-features = false }
anyhow = "=1.0.104"
