[package]
name = "yarp"
version = "0.1.0"
edition = "2021"
publish = false

[dependencies]
sha2 = "0.10"
regex = "1"
time = { version = "0.3", features = ["formatting", "parsing"] }
zstd = "0.13"
serde = { version = "1", features = ["derive"] }
serde_json = "1"
serde_jcs = "*"
rusqlite = { version = "*", features = ["bundled", "backup", "blob"] }
fs2 = "0.4"
rustix = { version = "1", features = ["fs", "net", "process"] }
tempfile = "3"
toml_edit = { version = "*", features = ["serde"] }
skillflag = "*"
