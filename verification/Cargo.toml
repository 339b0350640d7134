[package]
name = "sudo39"
version = "1.0.2"
edition = "2021"
publish = false

[dependencies]
turbomcp = "3.0.14"
tokio = { version = "1", features = ["macros", "rt-multi-thread"] }
