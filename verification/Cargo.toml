[package]
name = "cbacon"
version = "0.1.0"
edition = "2021"
publish = false

[dependencies]
regex = "1"
once_cell = "1"
tokio = { version = "1", features = ["macros", "rt-multi-thread", "time"] }
notify = "*"
which = "*"
