[package]
name = "nixpkgs_build_failure_notifier"
version = "0.1.0"
edition = "2021"
publish = false

[dependencies]
anyhow = "*"
brotli = "*"
clap = { version = "*", features = ["derive", "env"] }
keyv = { version = "*", default-features = false, features = ["postgres"] }
lettre = { version = "*", default-features = false, features = ["smtp-transport", "builder"] }
reqwest = { version = "*", default-features = false, features = ["blocking", "json"] }
scraper = "*"
serde = { version = "*", features = ["derive"] }
serde_json = "*"
tokio = { version = "*", features = ["macros", "rt-multi-thread"] }
