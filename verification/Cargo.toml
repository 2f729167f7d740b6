[package]
name = "udp_ticket_distribution"
version = "0.1.0"
edition = "2021"
publish = false

[dependencies]
crc = "3"
tokio = { version = "1", features = ["net", "rt-multi-thread", "macros", "time"] }
clearscreen = "*"

[dev-dependencies]
serde = "1"
serde_cbor = "0.11"
