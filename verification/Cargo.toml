[package]
name = "clif-pad"
version = "0.1.0"
edition = "2021"
publish = false

[dependencies]
futures = "0.3"
llama-cpp-2 = "*"
log = "0.4"
notify = "6"
reqwest = { version = "0.12", default-features = false, features = ["json", "stream"] }
serde = { version = "1", features = ["derive"] }
serde_json = "1"
sysinfo = "0.30"
tokio = { version = "1", features = ["full"] }
tracing = "0.1"
tracing-subscriber = "0.3"
uuid = { version = "1", features = ["v4"] }
walkdir = "2"
