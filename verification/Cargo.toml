[package]
name = "observer_ward"
version = "0.1.0"
edition = "2021"
publish = false

[dependencies]
textwrap = "0.16"
serde = { version = "1", features = ["derive"] }
serde_json = "1"
serde_yaml = "*"
csv = "1"
crossterm = "0.27"
prettytable-rs = "*"
reqwest = { version = "0.11", features = ["json", "blocking"] }
tokio = { version = "1", features = ["rt-multi-thread", "macros", "process", "sync"] }
futures = "0.3"
zip = { version = "*", default-features = false, features = ["deflate"] }
dirs = "*"
once_cell = "1"
actix-web = { version = "4", features = ["openssl"] }
actix-web-httpauth = "*"
openssl = "*"
daemonize = "*"
env_logger = "*"
