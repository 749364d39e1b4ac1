[package]
name = "vert"
version = "0.1.0"
edition = "2021"
publish = false

[dependencies]
reqwest = { version = "*", default-features = false, features = ["json"] }
html5ever = "*"
serde = { version = "*", features = ["derive"] }
sqlx = { version = "*", default-features = false, features = ["runtime-tokio", "sqlite", "time"] }
tokio = { version = "*", features = ["macros", "rt-multi-thread"] }
futures = "*"
clap = "*"
toml = "*"
