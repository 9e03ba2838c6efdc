[package]
name = "rhizome"
version = "0.1.0"
edition = "2021"
publish = false

[dependencies]
actix-web = "=4.18.1"
actix-session = { version = "=0.10.1", features = ["redis-session"] }
actix-web-flash-messages = { version = "=0.5.1", features = ["cookies"] }
actix-files = "=0.6.10"
askama = "=0.12.1"
anyhow = "=1.0.104"
thiserror = "=1.0.69"
serde = { version = "=1.0.229", features = ["derive"] }
secrecy = { version = "=0.8.0", features = ["serde"] }
sqlx = { version = "=0.7.4", default-features = false, features = ["runtime-tokio", "postgres", "uuid", "chrono"] }
tokio = { version = "=1.54.1", features = ["macros", "rt-multi-thread"] }
uuid = { version = "=1.29.1", features = ["v4"] }
chrono = { version = "=0.4.45", default-features = false, features = ["clock", "std"] }
argon2 = { version = "=0.5.3", features = ["std"] }
rand = { version = "=0.8.8", features = ["std_rng"] }
percent-encoding = "=2.3.2"
pulldown-cmark = { version = "=0.9.6", default-features = false }

[dev-dependencies]
regex = "1"
