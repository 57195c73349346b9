[package]
name = "rusthydrus"
version = "0.1.0"
edition = "2021"
publish = false

[dependencies]
json = "0.12"
chrono = "0.4"
md5 = "0.7"
sha1 = "0.10"
sha2 = "0.10"
image = "0.24"
rusqlite = { version = "0.29", features = ["bundled"] }
interprocess = "1.2"
bincode = "1.3"
serde = { version = "1", features = ["derive"] }
serde_bytes = "0.11"
anyhow = "1"
ratelimit = "0.9"
reqwest = { version = "0.11", default-features = false, features = ["cookies", "gzip", "rustls-tls"] }
url = "2"
bytes = "1"
async-std = "1"
futures = "0.3"
file-format = "*"
csv = "1"
jwalk = "0.8"
rayon = "1"
libloading = "0.8"
ahash = "0.8"
clap = { version = "4", features = ["derive"] }
strum = { version = "0.25", features = ["derive"] }
struct_iterable = "*"
fast_log = "*"
