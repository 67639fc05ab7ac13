[package]
name = "secret_santa"
version = "0.1.0"
edition = "2021"
publish = false

[dependencies]
rand = "=0.8.5"
clap = "4"
lettre = { version = "0.11", default-features = false, features = ["builder", "hostname", "sendmail-transport", "tokio1"] }
tokio = { version = "1", features = ["macros", "rt-multi-thread"] }
