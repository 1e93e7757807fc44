[package]
name = "image_ingest"
version = "0.1.0"
edition = "2021"
publish = false

[dependencies]
image = { version = "0.25", default-features = false, features = ["png", "jpeg", "gif"] }
uuid = { version = "1", features = ["v4"] }
chrono = "0.4"
serde = { version = "1", features = ["derive"] }
serde_json = "1"
tokio = { version = "1", features = ["rt-multi-thread"] }
actix-web = { version = "4", default-features = false, features = ["macros"] }
sqlx = { version = "0.8", default-features = false, features = ["postgres", "runtime-tokio"] }
aws-config = { version = "1", default-features = false }
aws-sdk-s3 = { version = "1", default-features = false }
dotenv = "0.15"
env_logger = { version = "0.11", default-features = false }
log = "0.4"
