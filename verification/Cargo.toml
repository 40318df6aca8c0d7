[package]
name = "discord_links"
version = "0.1.0"
edition = "2021"
publish = false

[dependencies]
aho-corasick = "1"
futures = "0.3"
linkify = "0.10"
serde = { version = "1", features = ["derive"] }
serde_json = "1"
thiserror = "2"
time = { version = "0.3", features = ["formatting", "parsing", "serde"] }
tracing = "0.1"
