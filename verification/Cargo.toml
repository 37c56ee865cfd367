[package]
name = "acad"
version = "0.1.0"
edition = "2021"
publish = false

[dependencies]
async-trait = "*"
chrono = "*"
color-eyre = "*"
cron = "*"
ctrlc = "*"
dotenvy = "*"
id3 = "*"
image = "*"
lazy-regex = "*"
mimalloc = "*"
serde = { version = "*", features = ["derive"] }
serde_json = "*"
serde_with = "*"
slugify = "*"
thirtyfour = "*"
tokio = { version = "*", features = ["macros", "process", "rt-multi-thread", "time"] }
tracing = "*"
tracing-error = "*"
tracing-subscriber = "*"
