[package]
name = "tui_components"
version = "0.1.0"
edition = "2021"
publish = false

[dependencies]
ratatui = "*"
base64 = "*"
ratatui-image = "*"
image = { version = "*", default-features = false, features = ["png"] }
reqwest = { version = "*", default-features = false, features = ["blocking", "rustls-tls"] }
