[package]
name = "himalaya"
version = "0.1.0"
edition = "2021"
publish = false

[dependencies]
clap = { version = "=4.6.7", default-features = false, features = ["std", "derive", "help", "usage", "error-context"] }
email-lib = { version = "=0.27.0", default-features = false, features = ["tokio"] }
mml-lib = { version = "=1.1.2", default-features = false, features = ["rustls"] }
secret-lib = { version = "=1.0.0", default-features = false, features = ["rustls"] }
shellexpand-utils = "=0.2.1"
