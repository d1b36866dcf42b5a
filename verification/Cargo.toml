[package]
name = "zen"
version = "0.1.0"
edition = "2021"
publish = false

[dependencies]
rusqlite = { version = "=0.41.0", features = ["bundled"] }
uuid = { version = "=1.29.0", features = ["v4"] }
chrono = "=0.4.45"
rayon = "=1.12.0"
which = "=8.0.6"
clap = { version = "=4.6.7", features = ["derive"] }
owo-colors = "=4.4.0"
serde = { version = "=1.0.229", features = ["derive"] }
serde_json = "=1.0.154"
rmcp = { version = "*", features = ["server", "macros", "transport-io"] }
tokio = { version = "*", features = ["rt-multi-thread", "macros", "io-std", "io-util"] }
comfy-table = "*"
dialoguer = "*"
indicatif = "*"
colored = "*"
ctrlc = "*"
home = "*"
terminal_size = "*"
clap_complete = "*"
