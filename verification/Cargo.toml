[package]
name = "omegawhisper"
version = "0.1.0"
edition = "2021"
publish = false

[dependencies]
sha2 = "=0.10.9"
hex = "=0.4.3"
url = "=2.5.8"
serde = { version = "=1.0.229", features = ["derive"] }
serde_json = "=1.0.154"
chrono = "=0.4.45"
clap = { version = "=4.6.7", features = ["derive"] }
dirs = "=5.0.1"
libc = "=0.2.191"
native-tls = "=0.2.18"
rustfft = "=6.4.1"
tokio = { version = "=1.54.1", features = ["rt", "rt-multi-thread", "time", "macros"] }
tungstenite = { version = "=0.24.0", features = ["native-tls"] }
ureq = { version = "=2.12.1", features = ["json"] }
cpal = "=0.15.3"
zbus = "=5.19.0"
core-graphics = "0.24"
