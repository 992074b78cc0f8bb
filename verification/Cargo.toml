[package]
name = "safe_node"
version = "0.1.0"
edition = "2021"
publish = false

[dependencies]
bincode = "=1.3.3"
clap = { version = "4", features = ["derive"] }
color-eyre = "0.6"
libp2p = { version = "0.56", default-features = false, features = ["kad"] }
prost = "=0.9.0"
rand = "=0.8.8"
service-manager = "=0.6.2"
sn_dbc = { version = "=19.1.1", features = ["serdes"] }
tokio = { version = "1", features = ["macros", "net", "rt", "sync", "time"] }
tonic = "=0.6.2"
tracing = "0.1"
xor_name = "=5.0.0"

[dev-dependencies]
quickcheck = "=1.1.0"
