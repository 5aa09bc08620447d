[package]
name = "bookstore"
version = "0.1.0"
edition = "2021"
publish = false

[dependencies]
uuid = { version = "1", features = ["v4"] }
lambda_http = "*"
tokio = { version = "1", features = ["macros", "rt"] }
rusoto_core = { version = "0.48", default-features = false, features = ["rustls"] }
rusoto_dynamodb = { version = "0.48", default-features = false, features = ["rustls"] }
simple_logger = "*"
log = "*"
lazy_static = "1"
