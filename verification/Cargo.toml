[package]
name = "treelox"
version = "0.1.0"
edition = "2021"
publish = false

[dependencies]
rustc_apfloat = "*"
clap = { version = "*", features = ["derive"] }
codespan-reporting = "*"
