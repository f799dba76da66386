[package]
name = "rust_slack_bot"
version = "0.1.0"
edition = "2021"
publish = false

[dependencies]
duct = "=1.1.2"
handlebars = "=6.4.4"
config = "=0.15.27"
serde = { version = "=1.0.229", features = ["derive"] }
serde_json = "=1.0.151"
log = "=0.4.34"
env_logger = "=0.11.11"
reqwest = { version = "=0.13.5", default-features = false, features = ["json", "form"] }
tokio = { version = "=1.53.2", features = ["macros", "rt-multi-thread"] }
tungstenite = "=0.30.0"
