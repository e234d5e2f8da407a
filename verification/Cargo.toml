[package]
name = "starcoin"
version = "0.1.0"
edition = "2021"
publish = false

[dependencies]
actix = "*"
anyhow = "1"
async-trait = "*"
futures = "0.3"
hex = "0.4"
jsonrpc-core-client = "*"
log = "0.4"
move-core-types = "*"
num_enum = "*"
primitive-types = "*"
rand = "*"
serde = { version = "1", features = ["derive"] }
