[package]
name = "twitter_pipeline"
version = "0.1.0"
edition = "2021"
publish = false

[dependencies]
actix = "=0.13.5"
actix-web = { version = "=4.18.1", default-features = false, features = ["macros"] }
anyhow = "=1.0.104"
async-trait = "=0.1.92"
dotenv = "=0.15.0"
egg-mode = { version = "=0.16.1", default-features = false, features = ["rustls_webpki"] }
env_logger = "=0.9.3"
log = "=0.4.34"
rand = "=0.8.8"
serde = { version = "=1.0.229", features = ["derive"] }
sqlx = { version = "0.8", default-features = false, features = ["runtime-tokio", "postgres", "json"] }
