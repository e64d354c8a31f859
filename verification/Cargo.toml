[package]
name = "circomspect"
version = "0.1.0"
edition = "2021"
publish = false

[dependencies]
codespan-reporting = "=0.13.1"
serde = { version = "*", features = ["derive"] }
serde-sarif = "=0.4.2"
thiserror = "=2.0.21"
