[package]
name = "chronon_spectra_telemetry"
version = "0.1.0"
edition = "2021"
publish = false

[dependencies]
chrono = "=0.4.45"
serde_json = "=1.0.154"
chronon-telemetry = "=0.1.4"
