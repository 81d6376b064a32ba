[package]
name = "crabbyconsole"
version = "0.1.0"
edition = "2021"
publish = false

[dependencies]
indexmap = "=2.14.2"
http = "=1.5.0"
clap = { version = "=4.6.7", features = ["derive", "unstable-ext"] }
csv = "=1.4.0"
serde = { version = "=1.0.229", features = ["derive"] }
time = { version = "=0.3.55", features = ["serde", "formatting", "parsing", "macros", "local-offset"] }
ordered-float = "=5.5.1"
