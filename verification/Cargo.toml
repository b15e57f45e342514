[package]
name = "riscv_perf"
version = "0.1.0"
edition = "2021"
publish = false

[dependencies]
actix-web = "4"
actix-rt = "2"
diesel = { version = "2", features = ["sqlite", "r2d2"] }
diesel_migrations = "2"
dotenv = "0.15"
env_logger = "0.11"
log = "0.4"
serde = { version = "1", features = ["derive"] }
serde_json = "1"
