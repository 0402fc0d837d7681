[package]
name = "order_book_parser"
version = "0.1.0"
edition = "2021"
publish = false

[dependencies]
rust_decimal = { version = "1", default-features = false, features = ["std"] }
anyhow = "1"
clap = { version = "4", features = ["derive"] }
thiserror = "2"
