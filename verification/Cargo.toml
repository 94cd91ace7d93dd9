[package]
name = "jj"
version = "0.1.0"
edition = "2021"
publish = false

[dependencies]
clap = { version = "4", features = ["derive"] }
futures = "0.3"
log = "0.4"
reqwest = { version = "0.12", default-features = false, features = ["stream"] }
serde = { version = "1", features = ["derive"] }
serde_json = "1"
serdeconv = "*"
stderrlog = "0.6"
tokio = { version = "1", features = ["macros", "rt-multi-thread"] }
