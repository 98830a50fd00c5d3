[package]
name = "keygrip"
version = "0.3.3"
edition = "2021"
publish = false

[dependencies]
heck = "0.5"
aws-sdk-dynamodb = { version = "1", default-features = false }
serde = { version = "1", features = ["derive"] }
serde_dynamo = { version = "4", features = ["aws-sdk-dynamodb+1"] }
thiserror = "2"
syn = "2"
quote = "1"
proc-macro2 = "1"
