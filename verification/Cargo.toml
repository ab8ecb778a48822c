[package]
name = "hikki"
version = "0.1.0"
edition = "2021"
publish = false

[dependencies]
ropey = "=1.6.1"
dirs = "=6.0.0"
thiserror = "=2.0.21"
serde = { version = "=1.0.229", features = ["derive"] }
serde_json = "=1.0.154"
clap = { version = "=4.6.7", features = ["derive"] }
anyhow = "=1.0.104"
tokio = { version = "=1.54.1", features = ["rt-multi-thread"] }
tracing = "=0.1.44"
rmcp = { version = "=3.8.0", features = ["server", "transport-io", "macros"] }
madori = "=0.1.27"
garasu = "=0.1.19"
mojiban = "=0.1.8"
ishou-tokens = "=0.1.24"
shikumi = "=0.1.1084"
glyphon = { version = "=0.9.0", default-features = false }
wgpu = { version = "=25.0.2", default-features = false }
