[package]
name = "tum_autoloader"
version = "0.1.0"
edition = "2021"
publish = false

[dependencies]
battery = "=0.7.8"
chrono = { version = "=0.4.45", features = ["serde"] }
dotenv = "=0.15.0"
flurry = "=0.5.2"
futures = "=0.3.34"
lazy_static = "=1.5.1"
regex = "=1.13.1"
reqwest = { version = "=0.13.5", features = ["cookies", "form", "stream"] }
reqwest_cookie_store = "=0.10.0"
select = "=0.6.1"
serde = { version = "=1.0.229", features = ["derive"] }
serde_json = "=1.0.154"
simple-error = "=0.3.3"
structopt = "=0.3.26"
tempfile = "=3.27.0"
tokio = { version = "=1.54.1", features = ["full"] }
urlencoding = "=2.1.3"
