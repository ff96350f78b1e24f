[package]
name = "codeowners"
version = "0.1.0"
edition = "2021"
publish = false

[dependencies]
globset = "*"
anyhow = "*"
futures = "*"
hubcaps = "*"
log = "*"
serde_json = "*"
simple_logger = "*"
tokio = { version = "*", features = ["macros", "rt-multi-thread"] }
