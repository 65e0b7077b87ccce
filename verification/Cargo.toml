[package]
name = "corvus_tui"
version = "0.1.0"
edition = "2021"
publish = false

[dependencies]
flume = "0.11"
ratatui = "0.29"
anyhow = "1"
tracing = "0.1"
