[package]
name = "hidamari"
version = "0.1.0"
edition = "2021"
publish = false

[dependencies]
url = "2"
rand = "0.7"
lru = "0.6"
roxmltree = "0.13"
mime = "0.3"
mime_guess = "2"
tokio = { version = "0.2", features = ["full"] }
warp = "0.2"
tokio-util = { version = "0.3", features = ["codec"] }
futures = "0.3"
headers = "0.3"
chrono = "0.4"
log = "0.4"
pretty_env_logger = "0.4"
serde = { version = "1", features = ["derive"] }
serde_json = "1"
toml = "0.5"
mp3-metadata = "0.3"
chfft = "0.3"
num-complex = "0.2"
libc = "0.2"
regex = "1"
dbus = "0.9"
dbus-tokio = "0.6"
dbus-crossroads = "0.3"
async-trait = "0.1"
id3 = "*"
metaflac = "*"
mp4ameta = "*"
