[package]
name = "xmla_ssas_rs"
version = "0.1.0"
edition = "2021"
publish = false

[dependencies]
base64 = "0.22"
log = "0.4"
quick-xml = "*"
roxmltree = "*"
sspi = { version = "*", default-features = false }
thiserror = "*"
