[package]
name = "living-postmortem-mcp"
version = "0.1.1"
edition = "2021"
publish = false

[dependencies]
chrono = { version = "0.4", default-features = false, features = ["clock", "std"] }
slugify = "0.1"
serde = { version = "1", features = ["derive"] }
schemars = "1"
rmcp = { version = "*", features = ["server", "macros", "transport-io"] }
tokio = { version = "1", features = ["macros", "rt-multi-thread", "io-std"] }
