[package]
name = "tls_handshake_benchmarking"
version = "0.1.0"
edition = "2021"
publish = false

[dependencies]
aws-lc-rs = "=1.19.0"
rcgen = { version = "=0.13.2", default-features = false, features = ["crypto", "pem", "aws_lc_rs"] }
rustls = "=0.23.46"
s2n-tls = { version = "=0.3.47", features = ["unstable-testing", "unstable-events"] }
serde = { version = "=1.0.229", features = ["derive"] }
serde_json = "=1.0.154"
