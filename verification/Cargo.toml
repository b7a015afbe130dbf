[package]
name = "myaku"
version = "0.1.0"
edition = "2021"
publish = false

[dependencies]
awase = "*"
shikumi = "*"
sysinfo = { version = "0.33", default-features = false, features = ["disk", "network", "system", "user"] }
clap = { version = "4", default-features = false, features = ["std", "derive", "help", "usage", "error-context"] }
serde = { version = "1", features = ["derive"] }
serde_json = "1"
rmcp = { version = "*", default-features = false, features = ["server", "transport-io", "macros"] }
tokio = { version = "1", features = ["rt-multi-thread", "macros", "signal", "time"] }
tracing = "0.1"
tracing-subscriber = { version = "0.3", default-features = false, features = ["env-filter", "fmt", "std"] }
