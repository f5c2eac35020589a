[package]
name = "cursor_optimizer"
version = "0.1.0"
edition = "2021"
publish = false

[dependencies]
rusqlite = "*"
zstd = "*"
png = "*"
command-group = "*"
tao = "*"
wry = "*"
