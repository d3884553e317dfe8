[package]
name = "dirshare"
version = "0.1.0"
edition = "2021"
publish = false

[dependencies]
async-std = { version = "1", features = ["attributes"] }
clap = { version = "4", features = ["derive"] }
clean-path = "*"
colored = "2"
dashmap = "5"
getrandom = "0.2"
sanitise-file-name = "*"
serde = { version = "1", features = ["derive"] }
serde_json = "1"
tide = { version = "0.16", default-features = false, features = ["h1-server"] }
urlencoding = "2"
