[package]
name = "hextet"
version = "0.1.0"
edition = "2021"
publish = false

[dependencies]
anyhow = "=1.0.104"
axum = "=0.8.9"
base64 = "=0.22.1"
bytes = "=1.12.1"
futures = "=0.3.34"
getifaddrs = "=0.6.2"
gotatun = { version = "=0.8.1", features = ["device", "tun"] }
ipconfig = "=0.3.4"
ipnetwork = "=0.21.1"
libc = "=0.2.191"
net-route = "=0.4.6"
rand_core = { version = "=0.6.4", features = ["getrandom"] }
rtnetlink = "=0.23.0"
serde = { version = "=1.0.229", features = ["derive"] }
serde_json = "=1.0.154"
thiserror = "=2.0.21"
tokio = { version = "=1.54.1", features = ["full"] }
tower-http = { version = "=0.7.1", features = ["cors", "fs"] }
tracing = "=0.1.44"
tun = "0.8"
wireguard-control = "=2.0.0"
