[package]
name = "torrent_repository"
version = "0.1.0"
edition = "2021"
publish = false

[dependencies]
crossbeam-skiplist = "0.1"
aquatic_udp_protocol = "0.9"
tokio = { version = "1", features = ["sync", "rt", "macros", "time"] }
tracing = "0.1"
thiserror = "2"
serde = { version = "1", features = ["derive"] }
rand = "0.9"

[dev-dependencies]
bittorrent-primitives = "0.1"
