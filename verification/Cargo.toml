[package]
name = "alternator-driver"
version = "0.1.0"
edition = "2021"
publish = false

[dependencies]
arc-swap = "1"
async-compression = { version = "0.4", features = ["tokio", "gzip", "zlib"] }
aws-runtime = "1"
aws-sdk-dynamodb = "1"
aws-smithy-async = { version = "1", features = ["rt-tokio"] }
aws-smithy-http-client = { version = "1", features = ["rustls-aws-lc"] }
aws-smithy-runtime = { version = "1", features = ["client"] }
aws-smithy-runtime-api = { version = "1", features = ["client", "http-1x"] }
aws-smithy-types = { version = "1", features = ["http-body-1-x"] }
aws-types = "1"
base64 = "0.22"
bytes = "1"
dashmap = "6"
flate2 = "1"
futures-util = "0.3"
http-body = "1"
http-body-util = "0.1"
rand = "0.10"
reqwest = { version = "0.12", default-features = false, features = ["json", "rustls-tls-manual-roots-no-provider"] }
rustls = "0.23"
rustls-native-certs = "0.8"
serde_json = "1"
tokio = { version = "1", features = ["full"] }
tokio-util = { version = "0.7", features = ["io"] }
url = "2"
