[package]
name = "lox"
version = "0.1.0"
edition = "2021"
publish = false

[dependencies]
annotate-snippets = "*"
lasso = "=0.7.3"
thiserror = "=2.0.21"
