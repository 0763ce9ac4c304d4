[package]
name = "lamco_rdp_server"
version = "0.1.0"
edition = "2021"
publish = false

[dependencies]
anyhow = "*"
ashpd = { version = "=0.13.13", default-features = false, features = ["background", "tokio"] }
async-trait = "*"
chrono = { version = "*", default-features = false, features = ["clock", "std"] }
futures-util = "*"
ironrdp-cliprdr = "=0.9.0"
ironrdp-graphics = "=0.11.0"
ironrdp-pdu = "=0.11.0"
lamco-clipboard-core = { version = "=0.6.3", features = ["image"] }
lamco-rdp-clipboard = "=0.7.0"
libc = "*"
nix = { version = "=0.31.3", features = ["signal", "process"] }
parking_lot = "*"
serde = { version = "*", features = ["derive"] }
serde_json = "*"
socket2 = { version = "*", features = ["all"] }
subtle = "=2.6.1"
thiserror = "*"
tokio = { version = "*", features = ["full"] }
toml = "*"
tracing = "*"
zbus = { version = "=5.19.0", default-features = false, features = ["tokio"] }

[dev-dependencies]
tempfile = "*"
