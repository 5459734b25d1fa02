[package]
name = "mcp_browser"
version = "0.1.0"
edition = "2021"
publish = false

[dependencies]
scraper = "*"
base64 = "*"
serde = { version = "*", features = ["derive"] }
serde_json = "*"
anyhow = "*"
headless_chrome = "*"
reqwest = "*"
rmcp = { version = "*", features = ["server", "macros", "transport-io"] }
tokio = { version = "*", features = ["full"] }
tracing = "*"
tracing-subscriber = { version = "*", features = ["env-filter"] }
