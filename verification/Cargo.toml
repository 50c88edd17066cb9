[package]
name = "phi_tools"
version = "0.1.0"
edition = "2021"
publish = false

[dependencies]
agent-base = "*"
async-trait = "0.1"
base64 = "0.22"
headless_chrome = "1"
html2md = "0.2"
log = "0.4"
serde = { version = "1", features = ["derive"] }
serde_json = "1"
tokio = { version = "1", features = ["process", "time", "rt", "rt-multi-thread", "macros", "sync"] }
tracing = "0.1"
