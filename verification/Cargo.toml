[package]
name = "warm_ml"
version = "0.1.0"
edition = "2021"
publish = false

[dependencies]
bincode = { version = "=2.0.1", features = ["serde"] }
csv = "=1.4.0"
http = "=1.5.0"
linfa = "=0.8.1"
linfa-logistic = { version = "=0.8.1", features = ["serde"] }
linfa-svm = { version = "=0.8.1", features = ["serde"] }
modsecurity = "=1.0.0"
ndarray = "=0.16.1"
rand = "=0.8.8"
regex = "=1.13.1"
serde = { version = "=1.0.229", features = ["derive"] }
serde_json = "=1.0.154"

[dev-dependencies]
urlencoding = "=2.1.3"
