[package]
name = "rustcli"
version = "0.1.0"
edition = "2021"
publish = false

[dependencies]
chrono = "0.4"
clap = { version = "4", features = ["derive"] }
console = "*"
dialoguer = "*"
glob = "0.3"
indicatif = "*"
prettytable = "*"
reqwest = "*"
serde_json = "1"
tokio = { version = "1", features = ["macros", "rt-multi-thread"] }
