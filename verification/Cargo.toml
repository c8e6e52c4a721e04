[package]
name = "stock_analysis"
version = "0.1.0"
edition = "2021"
publish = false

[dependencies]
anyhow = "=1.0.104"
chrono = "=0.4.45"
dptree = "=0.3.0"
encoding_rs = "=0.8.44"
env_logger = "=0.10.2"
log = "=0.4.35"
reqwest = { version = "=0.11.27", features = ["json"] }
scraper = "=0.18.1"
serde = { version = "=1.0.229", features = ["derive"] }
serde_json = "=1.0.154"
# Not called by this crate: it holds teloxide-core's takecell at 0.1.1,
# as takecell 0.1.2 asks for a newer Rust compiler than the crate is built with.
takecell = "=0.1.1"
teloxide = { version = "=0.12.2", features = ["macros"] }
tokio = { version = "=1.54.1", features = ["macros", "rt-multi-thread", "sync", "time"] }
tokio-cron-scheduler = "=0.13.0"
