[package]
name = "rust-forth-compiler"
version = "0.1.0"
edition = "2021"
publish = false

[dependencies]
rust-forth-tokenizer = "*"
rust-simple-stack-processor = "*"
thiserror = "1"
