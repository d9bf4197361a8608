[package]
name = "aggligator_transport"
version = "0.1.0"
edition = "2021"
publish = false

[dependencies]
reed-solomon-erasure = "6"
internet-checksum = "0.2"
rand = "*"
bytes = "1"
flume = "*"
futures = "0.3"
kcp-tokio = "0.4.0"
network-interface = "*"
socket2 = { version = "*", features = ["all"] }
tokio = { version = "1", features = ["net", "sync", "time", "rt", "io-util", "macros"] }
tokio-util = { version = "0.7", features = ["codec"] }
tracing = "0.1"
tun2 = { version = "*", features = ["async"] }

[dev-dependencies]
pnet = "0.35"
