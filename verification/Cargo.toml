[package]
name = "showdown"
version = "0.1.0"
edition = "2021"
publish = false

[dependencies]
chrono = "0.4"
url = "2"
serde = "1"
serde_derive = "1"
serde_json = "1"
reqwest = { version = "0.11", features = ["json"] }
tokio = { version = "1", features = ["net", "rt", "macros"] }
tokio-native-tls = "0.3"
tokio-tungstenite = { version = "0.16", features = ["native-tls"] }
futures-util = { version = "0.3", features = ["sink"] }
extension-trait = "1"
