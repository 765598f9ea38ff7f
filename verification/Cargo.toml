[package]
name = "anitrack"
version = "0.1.0"
edition = "2021"
publish = false

[dependencies]
anitomy = "=0.2.0"
sqlx = { version = "=0.8.6", default-features = false, features = ["sqlite", "runtime-tokio", "macros", "migrate"] }
tokio = { version = "=1.54.1", features = ["rt-multi-thread", "macros", "net", "io-util", "time"] }
mal-api = { version = "=2.0.3", features = ["user"] }
open = "=5.4.5"
indicatif = "=0.18.6"
ffmpeg = "=0.3.0"
