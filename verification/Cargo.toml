[package]
name = "signalhub"
version = "0.1.0"
edition = "2021"
publish = false

[dependencies]
anyhow = "=1.0.104"
async-trait = "=0.1.92"
axum = "=0.8.9"
bpaf = { version = "=0.9.28", features = ["derive"] }
fastwebsockets = { version = "=0.10.0", features = ["upgrade", "with_axum", "unstable-split"] }
futures = "*"
hex = "=0.4.3"
hmac = "=0.12.1"
http = "*"
local-ip-address = "=0.6.13"
lru = "=0.18.5"
md-5 = "=0.10.6"
ratelimit = "=2.0.0"
serde = { version = "*", features = ["derive"] }
serde_json = "=1.0.151"
serde_with = "=3.24.0"
serde_yaml = "=0.9.34"
systemstat = "=0.2.7"
thiserror = "*"
tklog = "=0.3.0"
tokio = { version = "=1.53.2", features = ["full"] }
tower-http = { version = "=0.7.1", features = ["cors", "fs"] }
x509-parser = "=0.18.1"
