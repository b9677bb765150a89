[package]
name = "mail_relay"
version = "0.1.0"
edition = "2021"
publish = false

[dependencies]
config = { version = "=0.15.27", default-features = false, features = ["toml"] }
serde = { version = "=1.0.229", features = ["derive"] }
serde_json = "=1.0.151"
colored = "=3.1.1"
lettre = { version = "=0.11.23", default-features = false, features = ["smtp-transport", "builder"] }
signal-hook = "=0.4.5"
tokio = { version = "=1.53.2", default-features = false, features = ["rt-multi-thread", "net", "time", "sync", "macros", "io-util"] }
dusa_collection_utils = "=4.0.2"
simple_comms = "=1.2.2"
