[package]
name = "kaeshi"
version = "0.1.0"
edition = "2021"
publish = false

[dependencies]
anyhow = "1"
async-trait = "0.1"
chrono = "0.4"
clap = "2"
env_logger = "0.9"
gluesql = { version = "0.9", default-features = false }
im = "15"
log = "0.4"
nom = { version = "5", default-features = false, features = ["std"] }
prettytable-rs = "0.10"
serde = { version = "1", features = ["derive"] }
serde_json = "1"
sql-builder = "3"
structopt = "0.3"
tokio = { version = "1", features = ["rt", "macros", "sync"] }
