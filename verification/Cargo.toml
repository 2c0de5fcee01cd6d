[package]
name = "commander"
version = "0.1.0"
edition = "2021"
publish = false

[dependencies]
serde_json = "1"
serde = { version = "1", features = ["derive"] }
actix-web = "4"
actix = "*"
actix-web-actors = "*"
actix-multipart = "*"
tokio = { version = "1", features = ["net", "io-util", "sync", "rt-multi-thread", "macros", "time"] }
futures-util = "0.3"
indexmap = { version = "2", features = ["serde"] }
uuid = { version = "1", features = ["v4"] }
directories = "*"
local-ip-address = "*"
colored = "*"
