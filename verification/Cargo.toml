[package]
name = "s3_tui"
version = "0.1.0"
edition = "2021"
publish = false

[dependencies]
anyhow = "1"
aws-config = "1"
aws-sdk-s3 = "1"
aws-smithy-types-convert = { version = "0.60", features = ["convert-chrono"] }
bendy = { version = "0.3", features = ["serde"] }
bytesize = "2"
color-eyre = "0.6"
crossterm = { version = "0.28", features = ["event-stream"] }
directories = "6"
futures = "0.3"
indexmap = "2"
indextree = "4"
keyring = { version = "3", features = ["linux-native"] }
ratatui = "0.29"
serde = { version = "1", features = ["derive"] }
tokio = { version = "1", features = ["full"] }
tui-textarea = "0.7"
users = "0.11"
