[package]
name = "uetool"
version = "0.1.0"
edition = "2021"
publish = false

[dependencies]
clap = { version = "4", features = ["derive"] }
git2 = "*"
ignore = "0.4"
num_cpus = "1"
rayon = "1"
reqwest = "*"
serde = { version = "1", features = ["derive"] }
serde_json = "1"
tempfile = "3"
thiserror = "*"
tokio = { version = "1", features = ["fs", "macros", "rt-multi-thread", "sync"] }
toml = "*"
windows-sys = { version = "*", features = ["Win32_Storage_FileSystem"] }
zip = { version = "*", default-features = false, features = ["deflate"] }
