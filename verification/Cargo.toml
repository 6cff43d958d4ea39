[package]
name = "gpt_for_uds"
version = "0.1.0"
edition = "2021"
publish = false

[dependencies]
byteorder = "1"
chatgpt_rs = { version = "1", features = ["streams"] }
clap = { version = "4", features = ["derive", "env"] }
futures = "0.3"
serde = { version = "1", features = ["derive"] }
serde_json = "1"
tokio = { version = "1", features = ["full"] }
