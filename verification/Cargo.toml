[package]
name = "chip"
version = "0.1.0"
edition = "2021"
publish = false

[dependencies]
walrus = "=0.20.3"
id-arena = "=2.3.0"
linked-hash-map = "=0.5.6"
codespan-reporting = "=0.11.1"
lalrpop-util = { version = "=0.20.2", features = ["lexer"] }
anyhow = "=1.0.104"
thiserror = "=1.0.69"
