[package]
name = "hive"
version = "0.1.0"
edition = "2021"
publish = false

[dependencies]
axum = { version = "*", features = ["multipart"] }
base64 = "*"
chrono = "*"
deadpool-diesel = { version = "*", features = ["sqlite"] }
diesel = { version = "*", features = ["sqlite", "chrono", "returning_clauses_for_sqlite_3_35"] }
dotenv = "*"
flate2 = "*"
libsqlite3-sys = { version = "*", features = ["bundled"] }
tar = "*"
tempfile = "*"
tokio = { version = "*", features = ["full"] }
tower-http = { version = "*", features = ["fs"] }
