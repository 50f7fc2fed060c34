[package]
name = "news_lab"
version = "0.1.3"
edition = "2021"
publish = false

[dependencies]
anyhow = "=1.0.104"
async-openai = { version = "=0.28.3", default-features = false, features = ["rustls-webpki-roots"] }
chrono = "=0.4.45"
comfy-table = "=7.2.2"
console = "=0.15.11"
dotenvy = "=0.15.7"
env_logger = "=0.11.11"
futures = "=0.3.34"
html-escape = "=0.2.15"
indicatif = "=0.17.11"
inquire = "=0.7.5"
log = "=0.4.35"
quick-xml = "=0.37.5"
regex = "=1.13.1"
reqwest = { version = "=0.12.28", default-features = false, features = ["json", "rustls-tls"] }
serde = { version = "=1.0.229", features = ["derive"] }
serde_json = "=1.0.154"
tokio = { version = "=1.54.1", features = ["macros", "rt-multi-thread", "time"] }
unicode-width = "=0.2.3"
