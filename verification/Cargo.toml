[package]
name = "sql_escape"
version = "0.1.0"
edition = "2021"
publish = false

[dependencies]
nom = "7.1.3"
revision = "*"
serde = { version = "1", features = ["derive"] }
surrealdb-derive = "*"
