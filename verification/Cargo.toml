[package]
name = "rdu"
version = "0.1.0"
edition = "2021"
publish = false

[dependencies]
async-recursion = "*"
clap = { version = "*", features = ["derive"] }
futures = "*"
humansize = "*"
tokio = { version = "*", features = ["fs", "macros", "rt-multi-thread"] }
tokio-stream = { version = "*", features = ["fs"] }
