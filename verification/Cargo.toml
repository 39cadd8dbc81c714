[package]
name = "bgg_cli"
version = "0.1.0"
edition = "2021"
publish = false

[dependencies]
chrono = { version = "0.4", features = ["serde"] }
toml_edit = "*"
serde = { version = "1", features = ["derive"] }
serde_json = "1"
directories = "*"
clap = { version = "4", features = ["derive", "cargo"] }
quick-xml = { version = "*", features = ["serialize"] }
reqwest = { version = "0.12", default-features = false, features = ["blocking", "json", "cookies", "rustls-tls"] }
keyring = "*"
rpassword = "*"
anstream = "*"
anstyle = "*"
indicatif = "*"
sparkline = "*"
thiserror = "*"
