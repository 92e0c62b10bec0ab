[package]
name = "webserver"
version = "0.1.0"
edition = "2021"
publish = false

[dependencies]
anyhow = "1"
async-trait = "0.1"
base64 = "0.21"
chrono = "0.4"
cidr = "0.2"
clap = { version = "4", features = ["derive"] }
flate2 = "1"
http = "0.2"
httpdate = "1"
hyper = { version = "0.14", features = ["full"] }
hyper-rustls = { version = "0.24", features = ["http2"] }
mime_guess = "2"
num_cpus = "1"
once_cell = "1"
rand = "0.8"
regex = "1"
ring = "0.17"
rustls = "0.21"
rustls-pemfile = "1"
serde = { version = "1", features = ["derive"] }
serde_json = "1"
tokio = { version = "1", features = ["full"] }
tokio-rustls = "0.24"
toml = "0.8"
tracing = "0.1"
tracing-subscriber = { version = "0.3", features = ["env-filter"] }
