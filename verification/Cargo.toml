[package]
name = "order_events"
version = "0.1.0"
edition = "2021"
publish = false

[dependencies]
nostr = { version = "=0.45.5", features = ["nip04", "os-rng"] }
nostr-sdk = "=0.45.4"
anyhow = "=1.0.104"
log = "=0.4.34"
