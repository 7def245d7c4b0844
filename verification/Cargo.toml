[package]
name = "scopetest"
version = "0.1.0"
edition = "2021"
publish = false

[dependencies]
anyhow = "=1.0.104"
bincode = "=1.3.3"
clap = { version = "=4.6.7", features = ["derive"] }
glob = "=0.3.4"
ignore = "=0.4.33"
oxc_allocator = "0.36"
oxc_ast = "0.36"
oxc_parser = "0.36"
oxc_span = "0.36"
petgraph = "=0.6.5"
rayon = "=1.12.0"
regex = "=1.13.1"
serde = { version = "=1.0.229", features = ["derive"] }
serde_json = "=1.0.154"
thiserror = "=1.0.69"

[dev-dependencies]
tempfile = "=3.27.0"
