[package]
name = "debil_dynamodb"
version = "0.1.0"
edition = "2021"
publish = false

[dependencies]
bytes = "*"
debil = "*"
rusoto_dynamodb = { version = "0.48", default-features = false, features = ["rustls"] }
