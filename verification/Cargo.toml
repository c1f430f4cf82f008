[package]
name = "dfuji"
version = "0.1.0"
edition = "2021"
publish = false

[dependencies]
chrono = "0.4"
astro = "2"
geographiclib-rs = "0.2"
geojson = "0.24"
clap = { version = "4", features = ["derive"] }
colored = "2"
tracing = "0.1"
tracing-subscriber = { version = "0.3", features = ["env-filter", "fmt"] }

[dev-dependencies]
serde_json = "1"
