[package]
name = "todo_list"
version = "0.1.0"
edition = "2021"
publish = false

[dependencies]
chrono = "0.4"
colored = "*"
indicatif = "*"

[dev-dependencies]
serde_json = "1"
