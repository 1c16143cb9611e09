[package]
name = "mapi_plugins"
version = "0.1.0"
edition = "2021"
publish = false

[dependencies]
dashmap = "=6.2.1"
uuid = { version = "=1.29.0", features = ["v4"] }
form_urlencoded = "=1.2.2"
reqwest = { version = "=0.12.28", default-features = false, features = ["rustls-tls"] }
clap = { version = "=4.6.7", features = ["derive", "env"] }
tokio = { version = "=1.54.1", features = ["full"] }
tonic = "=0.12.3"
prost = "=0.13.5"
futures = "=0.3.34"
serde = { version = "=1.0.229", features = ["derive"] }
serde_derive = "=1.0.229"
serde_json = "=1.0.154"
url = "=2.5.8"
portpicker = "=0.1.1"
async-mutex = "=1.4.1"
