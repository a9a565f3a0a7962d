[package]
name = "db_introspector_gadget"
version = "0.1.0"
edition = "2021"
publish = false

[dependencies]
convert_case = "*"
anyhow = "*"
clap = { version = "*", features = ["derive"] }
sqlx = { version = "*", default-features = false, features = ["runtime-tokio-rustls", "mysql", "postgres"] }
tokio = { version = "*", features = ["rt-multi-thread", "macros"] }
