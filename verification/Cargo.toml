[package]
name = "migratour"
version = "0.1.0"
edition = "2021"
publish = false

[dependencies]
toml = "*"
sqlx = { version = "*", default-features = false, features = ["postgres", "mysql", "runtime-tokio"] }
tokio = { version = "*", features = ["macros", "rt-multi-thread"] }
async-trait = "*"
