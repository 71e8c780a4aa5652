[package]
name = "schema_records"
version = "0.1.0"
edition = "2021"
publish = false

[dependencies]
convert_case = "=0.6.0"
serde_json = "=1.0.151"
proc-macro2 = "=1.0.107"
quote = "=1.0.47"
