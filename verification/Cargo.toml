[package]
name = "ehcpi_rs"
version = "0.1.0"
edition = "2021"
publish = false

[dependencies]
evdev = { version = "=0.13.2", features = ["tokio"] }
tokio = { version = "=1.53.2", features = ["macros", "rt-multi-thread", "process"] }
futures = "=0.3.34"
daemonize = "=0.5.0"
