[package]
name = "container_mirror"
version = "0.1.0"
edition = "2021"
publish = false

[dependencies]
anyhow = "1"
bollard = "0.16"
chrono = "0.4"
futures = "0.3"
itertools = "0.12"
log = "0.4"
simplelog = "0.12"
strip-ansi-escapes = "0.2"
tokio = { version = "1", features = ["macros", "rt-multi-thread", "time", "sync"] }
twilight-http = "0.15"
twilight-model = "0.15"
