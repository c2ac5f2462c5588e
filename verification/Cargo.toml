[package]
name = "sayjp"
version = "0.1.0"
edition = "2021"
publish = false

[dependencies]
hound = "3.5"
base64 = "0.22"
serde = { version = "1", features = ["derive"] }
serde_json = "1"
anyhow = "1"
thiserror = "2"
ndarray = "0.16"
num_cpus = "1"
ort = { version = "=2.0.0-rc.10", default-features = false, features = ["ndarray", "load-dynamic"] }
tokenizers = { version = "0.21", default-features = false, features = ["onig", "esaxx_fast"] }
jpreprocess = "*"
