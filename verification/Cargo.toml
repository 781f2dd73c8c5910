[package]
name = "simply_files"
version = "0.1.0"
edition = "2021"
publish = false

[dependencies]
rand = "*"
mime_guess = "*"
percent-encoding = "*"
qrcode = "*"
image = { version = "*", default-features = false, features = ["png"] }
tokio = { version = "*", features = ["rt-multi-thread", "macros", "net", "fs", "io-util", "sync", "time"] }
axum = { version = "*", features = ["ws"] }
axum-extra = { version = "*", features = ["cookie"] }
sqlx = { version = "*", default-features = false, features = ["runtime-tokio", "sqlite", "time", "macros"] }
serde = { version = "*", features = ["derive"] }
serde_json = "*"
serde_repr = "*"
toml = "*"
time = { version = "*", features = ["serde", "formatting", "parsing"] }
clap = { version = "*", features = ["derive"] }
ureq = { version = "*", features = ["json"] }
tungstenite = "*"
directories = "*"
tracing = "*"
tracing-subscriber = { version = "*", features = ["json"] }
tower-http = { version = "*", features = ["cors", "timeout"] }
async-trait = "*"
tokio-stream = "*"
futures-util = "*"
http-body = "*"
ssh2 = "*"
