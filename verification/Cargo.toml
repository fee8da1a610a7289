[package]
name = "fywaf"
version = "0.1.0"
edition = "2021"
publish = false

[dependencies]
anyhow = "1"
clap = { version = "4", features = ["derive"] }
fory = "=0.17.0"
fory-core = "=0.17.0"
regex = "=1.13.1"
serde = { version = "1", features = ["derive"] }
serde_json = "1"
serde_yaml = "0.9"
tokio = { version = "1", features = ["io-util", "macros", "net", "rt-multi-thread"] }
tracing = "0.1"
tracing-subscriber = "0.3"
wasmtime = { version = "=36.0.20", default-features = false, features = ["cranelift", "runtime", "std", "wat"] }
