[package]
name = "todo_list"
version = "0.1.0"
edition = "2021"

[dependencies]
serde = { version = "*", features = ["derive"] }
rmp-serde = "*"
clap = { version = "*", features = ["derive"] }
