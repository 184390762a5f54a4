[package]
name = "mpdpopm"
version = "0.3.5"
edition = "2021"
publish = false

[dependencies]
async-trait = "=0.1.92"
backtrace = "=0.3.77"
chrono = "=0.4.45"
clap = "=4.6.7"
errno = "=0.3.14"
futures = "=0.3.34"
lazy_static = "=1.5.1"
libc = "=0.2.191"
log = "=0.4.35"
log4rs = "=1.4.0"
pin-project = "=1.1.13"
regex = "=1.13.1"
serde = { version = "=1.0.229", features = ["derive"] }
serde-lexpr = "=0.1.3"
tokio = { version = "=1.54.1", features = ["full"] }
tracing = "=0.1.44"
tracing-subscriber = { version = "=0.3.23", features = ["env-filter"] }

[dev-dependencies]
lalrpop-util = "*"
