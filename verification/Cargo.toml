[package]
name = "repo_graph"
version = "0.1.0"
edition = "2021"
publish = false

[dependencies]
blake3 = "1"
md5 = "0.7"
tree-sitter = "0.20"
tree-sitter-javascript = "0.20"
tree-sitter-typescript = "0.20"
neo4rs = "0.7"
tokio = { version = "1", features = ["rt-multi-thread", "macros", "sync", "time"] }
notify = "6"
ignore = "0.4"
dotenvy = "0.15"
serde = { version = "1", features = ["derive"] }
serde_json = "1"
uuid = { version = "1", features = ["v4"] }
