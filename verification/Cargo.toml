[package]
name = "eokit"
version = "0.1.0"
edition = "2021"
publish = false

[dependencies]
nalgebra = "*"
rusty-machine = "0.5"
sprs = "*"
sprs-ldl = "*"
tokio = { version = "1", features = ["rt-multi-thread"] }
