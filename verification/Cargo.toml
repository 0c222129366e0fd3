[package]
name = "ml_service"
version = "0.1.0"
edition = "2021"
publish = false

[dependencies]
csv = "=1.4.0"
axum = "=0.7.9"
tokio = { version = "=1.54.1", features = ["full"] }
serde = { version = "=1.0.229", features = ["derive"] }
ndarray = "=0.15.6"
ort = { version = "=2.0.0-rc.2", default-features = false, features = ["ndarray", "load-dynamic"] }
# ort 2.0.0-rc.2 asks for ort-sys "2.0.0-rc.2", which alone resolves to a later
# release candidate that ort does not compile against: hold it to ort's own.
ort-sys = "=2.0.0-rc.2"
tracing = "=0.1.44"
tracing-subscriber = { version = "=0.3.23", features = ["env-filter", "json"] }
