[package]
name = "trace_graph"
version = "0.1.0"
edition = "2021"
publish = false

[dependencies]
tree-sitter = "*"
tree-sitter-python = "*"
tree-sitter-rust = "*"
tree-sitter-go = "*"
tree-sitter-javascript = "*"
tree-sitter-typescript = "*"
tree-sitter-ruby = "*"
tree-sitter-java = "*"
tree-sitter-php = "*"
tree-sitter-swift = "*"
regex = "1"
serde = { version = "1", features = ["derive"] }
serde_json = "1"
rusqlite = { version = "*", features = ["bundled"] }
ignore = "*"
tempfile = "*"
axum = "*"
tokio = { version = "1", features = ["full"] }
tower-http = { version = "*", features = ["cors"] }
uuid = { version = "1", features = ["v4", "serde"] }
tracing = "*"
tracing-subscriber = { version = "*", features = ["env-filter"] }
streaming-iterator = "*"
