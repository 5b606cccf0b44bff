[package]
name = "agt"
version = "0.1.0"
edition = "2021"
publish = false

[dependencies]
anyhow = "*"
chrono = "*"
clap = { version = "*", features = ["derive"] }
dirs = "*"
gix = { version = "*", features = ["blocking-network-client"] }
gix-features = "*"
gix-fs = "*"
gix-worktree-state = "*"
jwalk = "*"
serde = { version = "*", features = ["derive"] }
serde_json = "*"

[dev-dependencies]
tempfile = "*"
