[package]
name = "edgequake"
version = "0.1.0"
edition = "2021"
publish = false

[dependencies]
regex = "=1.13.1"
md5 = "=0.7.0"
base64 = "=0.22.1"
serde = { version = "=1.0.229", features = ["derive"] }
serde_json = "=1.0.154"
uuid = { version = "=1.29.0", features = ["v4", "serde"] }
chrono = { version = "=0.4.45", features = ["serde"] }
thiserror = "=2.0.21"
tokio = { version = "=1.54.1", features = ["full"] }
tokio-util = "=0.7.20"
async-trait = "=0.1.92"
tracing = "=0.1.44"
futures = "=0.3.34"
ureq = "=3.5.1"
rayon = "=1.12.0"
image = { version = "=0.25.10", default-features = false, features = ["jpeg", "png", "webp"] }
webp = { version = "=0.3.1", default-features = false }
pdfium-render = "=0.8.37"
hayro = "=0.9.0"
pdfium-auto = "=0.3.1"
sqlx = { version = "=0.8.6", default-features = false, features = ["postgres", "runtime-tokio", "uuid", "json"] }
