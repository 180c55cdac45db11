[package]
name = "lazycard"
version = "0.1.0"
edition = "2021"
publish = false

[dependencies]
unicode-segmentation = "*"
unicode-width = "*"
textwrap = "*"
zlib-rs = "*"
base64 = "*"
seahash = "*"
ahash = "*"
ratatui = "*"
clap = { version = "*", features = ["derive"] }
directories = "*"
rusqlite = { version = "*", features = ["bundled"] }
serde = { version = "*", features = ["derive"] }
toml = "*"
fsrs = "*"
image = { version = "*", default-features = false, features = ["png", "gif", "webp"] }
syntect = { version = "*", default-features = false, features = ["default-syntaxes", "default-themes", "regex-fancy"] }
constcat = "*"
