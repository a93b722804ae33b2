[package]
name = "elu_etl"
version = "0.1.0"
edition = "2021"
publish = false

[dependencies]
async-trait = "=0.1.92"
calamine = { version = "=0.38.0", features = ["chrono"] }
chardetng = "=1.0.0"
chrono = "=0.4.45"
csv = "=1.4.0"
deadpool = "=0.13.1"
encoding_rs = "=0.8.44"
futures = "=0.3.34"
ibm_db = "=1.0.8"
keyring = "=4.2.0"
keyring-core = "=1.0.1"
md-5 = "=0.11.0"
rayon = "=1.12.0"
rust_decimal = "=1.43.0"
rust_xlsxwriter = { version = "=0.102.0", features = ["chrono"] }
serde = { version = "=1.0.229", features = ["derive"] }
serde_json = "=1.0.154"
sha2 = "=0.11.1"
sqlx = { version = "=0.9.0", default-features = false, features = ["runtime-tokio", "postgres", "mysql", "sqlite", "chrono", "rust_decimal", "json", "uuid"] }
thiserror = "=2.0.21"
tiberius = { version = "=0.13.0", default-features = false, features = ["chrono", "tds73"] }
tokio = { version = "=1.54.1", features = ["full"] }
tokio-util = { version = "=0.7.20", features = ["compat"] }
tracing = "=0.1.44"
tracing-subscriber = { version = "=0.3.23", features = ["env-filter"] }
uuid = { version = "=1.29.0", features = ["v4", "serde"] }
