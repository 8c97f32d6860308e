[package]
name = "terminal_chat"
version = "0.1.0"
edition = "2021"
publish = false

[dependencies]
serde = { version = "*", features = ["derive"] }
serde_json = "*"
unicode-segmentation = "*"
unicode-width = "*"
termsize = "*"
reqwest = { version = "*", default-features = false, features = ["rustls-tls", "stream", "json"] }
tokio = { version = "*", features = ["macros", "rt-multi-thread", "time", "sync"] }
futures-util = "*"
linefeed = "*"
crossterm = "*"
dirs = "*"
pulldown-cmark = "*"
walkdir = "*"
