[package]
name = "zusi_fahrplan_generator"
version = "0.1.0"
edition = "2021"
publish = false

[dependencies]
time = { version = "0.3", features = ["macros", "parsing", "formatting"] }
serde = { version = "1", features = ["derive"] }
thiserror = "2"
clap = { version = "4", features = ["derive"] }
regex = "1"
quick-xml = { version = "0.37", features = ["serialize"] }
