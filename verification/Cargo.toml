[package]
name = "showdown-hunter"
version = "0.1.0"
edition = "2021"
publish = false

[dependencies]
rand = "=0.8.8"
actix-web = "=4.18.1"
actix-files = "=0.6.10"
broadcaster = "=1.0.0"
futures = "=0.3.34"
lazy_static = "=1.5.1"
leptos = { version = "=0.2.5", default-features = false, features = ["ssr", "serde", "stable"] }
leptos_meta = { version = "=0.2.5", features = ["ssr", "stable"] }
leptos_router = { version = "=0.2.5", features = ["ssr", "stable"] }
leptos_actix = "=0.2.5"
reqwest = "=0.11.27"
serde_json = "=1.0.154"
