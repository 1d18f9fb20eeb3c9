[package]
name = "bitcoinvert"
version = "0.1.0"
edition = "2021"
publish = false

[dependencies]
clap = { version = "*", features = ["derive"] }
colored = "*"
env_logger = "*"
exitcode = "*"
home-config = "*"
log = "*"
reqwest = { version = "*", default-features = false, features = ["blocking", "json"] }
serde = { version = "*", features = ["derive"] }
serde_yml = "*"
si-unit-prefix = "*"
tabled = "*"
thousands = "*"
