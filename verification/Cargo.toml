[package]
name = "cosmic-applet-system-monitor"
version = "0.1.0"
edition = "2021"
publish = false

[dependencies]
sysinfo = "0.37"
tokio = { version = "1", features = ["rt"] }
tracing = "0.1"
