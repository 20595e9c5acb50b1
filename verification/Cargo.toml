[package]
name = "sf_pkgen"
version = "0.4.3"
edition = "2021"
publish = false

[dependencies]
quick-xml = "0.39"
regex = "1"
nucleo-matcher = "0.3"
serde = { version = "1", features = ["derive"] }
serde_json = "1"
clap = { version = "4", features = ["derive"] }
crossterm = "0.28"
ratatui = "0.29"
ctrlc = "3"

[dev-dependencies]
tempfile = "3"
