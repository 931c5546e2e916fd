[package]
name = "standings"
version = "0.1.0"
edition = "2021"
publish = false

[dependencies]
dioxus = "0.4"
dioxus-charts = "0.1"
dioxus-logger = "0.4"
dioxus-router = "0.4"
dioxus-web = "0.4"
graphql_client = "0.13"
log = "0.4"
reqwest = { version = "0.11", default-features = false, features = ["json"] }
serde = { version = "1", features = ["derive"] }
