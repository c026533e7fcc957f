[package]
name = "packs_tui"
version = "0.1.0"
edition = "2021"
publish = false

[dependencies]
anyhow = "=1.0.104"
color-eyre = "=0.6.5"
crossterm = "=0.27.0"
dirs = "=5.0.1"
log = "=0.4.34"
log4rs = "=1.4.0"
pks = "*"
ratatui = "=0.26.3"
regex = "=1.13.1"
serde = { version = "=1.0.229", features = ["derive"] }
strum = { version = "=0.26.3", features = ["derive"] }
tokio = { version = "=1.54.1", features = ["sync"] }
tui-textarea = "=0.4.0"
tui-tree-widget = "=0.19.0"
