[package]
name = "ozendb"
version = "0.1.0"
edition = "2021"
publish = false

[dependencies]
serde = { version = "1", features = ["derive"] }
serde_json = "1"
thiserror = "*"
uuid = { version = "1", features = ["v4"] }
regex = "1"
sqlparser = "*"
struson = { version = "*", features = ["serde"] }
mongodb = "*"
tokio = { version = "1", features = ["rt", "macros"] }
futures-util = "*"

[dev-dependencies]
tempfile = "3"
