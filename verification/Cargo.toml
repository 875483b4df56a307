[package]
name = "htipc"
version = "0.1.0"
edition = "2021"
publish = false

[dependencies]
serde_json = "1"
wildmatch = "*"
serde = { version = "1", features = ["derive"] }
clap = { version = "4", features = ["derive"] }
anyhow = "1"
thiserror = "*"
colored = "*"
ctrlc = "*"
named_pipe = "*"
tokio = { version = "1", features = ["rt", "net", "io-util"] }
winapi = { version = "0.3", features = ["memoryapi", "handleapi", "winnt", "minwindef"] }
windows-sys = { version = "*", features = ["Win32_Foundation"] }
