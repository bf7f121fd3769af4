[package]
name = "ghciwatch"
version = "1.0.0"
edition = "2021"
publish = false

[dependencies]
aho-corasick = "=1.1.5"
backoff = "=0.4.0"
camino = "=1.2.6"
clap = { version = "=4.6.7", features = ["derive"] }
clap_complete = "=4.6.11"
clap_mangen = "=0.2.33"
clearscreen = "=3.0.0"
color-eyre = "=0.6.5"
command-group = { version = "=2.1.0", features = ["with-tokio"] }
eyre = "=0.6.14"
nix = { version = "=0.29.0", features = ["fs", "process", "signal"] }
notify-debouncer-full = "=0.3.2"
owo-colors = { version = "=4.4.0", features = ["supports-colors"] }
serde_json = { version = "=1.0.154", features = ["raw_value"] }
shell-words = "=1.1.1"
tokio = { version = "=1.54.1", features = ["full"] }
tracing = "=0.1.44"
