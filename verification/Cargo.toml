[package]
name = "high_performance_server"
version = "0.1.0"
edition = "2021"
publish = false

[dependencies]
num_cpus = "*"
libc = "*"
socket2 = "*"
ctrlc = "*"
serde = { version = "*", features = ["derive"] }
serde_json = "*"
