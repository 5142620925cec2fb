[package]
name = "jam_bot"
version = "0.1.0"
edition = "2021"
publish = false

[dependencies]
rand = "=0.10.3"
dotenv = "=0.15.0"
tokio = { version = "1", features = ["macros", "rt-multi-thread"] }
twilight-http = "*"
twilight-model = "*"
twilight-gateway = "*"
