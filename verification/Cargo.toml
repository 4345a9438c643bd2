[package]
name = "xuanji"
version = "0.1.0"
edition = "2021"
publish = false

[dependencies]
petgraph = "*"
regex = "1"
serde = { version = "1", features = ["derive"] }
serde_json = "1"
serde_yml = "*"
toml = "*"
tokio = { version = "1", features = ["sync", "rt-multi-thread", "macros", "process", "io-util", "time", "signal"] }
chrono = "0.4"
anyhow = "1"
thiserror = "*"
clap = { version = "4", features = ["derive"] }
dirs = "*"
pulldown-cmark = "*"
termimad = "*"
tracing = "0.1"
tracing-subscriber = { version = "0.3", features = ["env-filter"] }
which = "*"
libc = "0.2"
async-trait = "0.1"
indoc = "2"
reqwest = { version = "0.12", default-features = false, features = ["json", "rustls-tls"] }
