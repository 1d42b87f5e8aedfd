[package]
name = "barcode_service"
version = "0.1.0"
edition = "2021"
publish = false

[dependencies]
anyhow = "*"
clap = { version = "*", features = ["derive"] }
log = "*"
log4rs = "*"
serde = { version = "*", features = ["derive"] }
time = { version = "*", features = ["formatting", "parsing", "local-offset"] }
tokio = { version = "*", features = ["rt", "net", "fs", "io-util", "macros"] }
tokio-postgres = { version = "*", features = ["with-time-0_3"] }
toml = "*"
