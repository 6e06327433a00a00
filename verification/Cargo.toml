[package]
name = "bus_factor"
version = "0.1.0"
edition = "2021"
publish = false

[dependencies]
futures = "*"
reqwest = { version = "*", default-features = false, features = ["json"] }
serde = { version = "*", features = ["derive"] }
structopt = "*"
tokio = { version = "*", features = ["macros", "rt-multi-thread", "time"] }
