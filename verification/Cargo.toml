[package]
name = "pow-service"
version = "0.1.0"
edition = "2021"
publish = false

[dependencies]
anyhow = "1"
axum = "0.7"
bytes = "1"
chrono = "0.4"
clap = { version = "4", features = ["derive"] }
env_logger = "0.11"
eyre = "0.6"
futures = "0.3"
gethostname = "0.4"
hex = "0.4"
log = "0.4"
num_cpus = "1"
priority-queue = "2"
rayon = "1"
redis = "0.25"
serde = { version = "1", features = ["derive"] }
serde_json = "1"
sqlx = { version = "0.7", default-features = false, features = ["runtime-tokio", "sqlite", "chrono", "migrate", "macros"] }
tokio = { version = "1", features = ["full"] }
tokio-util = { version = "0.7", features = ["codec"] }
tower = { version = "0.4", features = ["timeout"] }
tower-http = { version = "0.5", features = ["cors"] }
ureq = { version = "2", default-features = false, features = ["json"] }
