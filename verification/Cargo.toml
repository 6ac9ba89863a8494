[package]
name = "loadr"
version = "0.1.0"
edition = "2021"
publish = false

[dependencies]
serde_json = "=1.0.154"
serde_yaml = "=0.9.34"
regex = "=1.13.1"
serde_json_path = "=0.7.2"
jmespath = "=0.5.0"
scraper = "=0.29.0"
sxd-document = "=0.3.2"
sxd-xpath = "=0.4.2"
base64 = "=0.22.1"
humantime = "=2.4.0"
strsim = "=0.11.1"
csv = "=1.4.0"
rand = "=0.10.3"
uuid = { version = "=1.29.0", features = ["v4"] }
indexmap = "=2.14.2"
bytes = "=1.12.1"
clap = { version = "=4.6.7", features = ["derive"] }
serde = { version = "=1.0.229", features = ["derive"] }
rusqlite = { version = "=0.41.1", features = ["bundled"] }
protox = "=0.10.0"
prost-reflect = "=0.16.5"
tokio = { version = "=1.54.1", features = ["rt-multi-thread", "macros", "net", "time", "sync"] }
hyper-util = { version = "=0.1.21", features = ["client-legacy", "http1", "tokio"] }
hyper-rustls = { version = "=0.27.10", default-features = false, features = ["http1", "ring", "webpki-tokio", "tls12"] }
http = "=1.5.0"
http-body-util = "=0.1.5"
tonic = { version = "*", default-features = false }
rquickjs = { version = "*", features = ["loader"] }
chromiumoxide = "*"
futures = "*"
