[package]
name = "connect_sync"
version = "0.1.0"
edition = "2021"
publish = false

[dependencies]
aes-gcm = "0.10"
argon2 = "0.5"
hkdf = "0.12"
hmac = "0.12"
sha2 = "0.10"
hex = "0.4"
getrandom = "0.3"
chrono = { version = "0.4", default-features = false, features = ["std", "clock"] }
serde = { version = "1", features = ["derive"] }
serde_json = "1"
bincode = "1"
reqwest = { version = "0.12", default-features = false, features = ["json", "rustls-tls"] }
tokio = { version = "1", features = ["full"] }
fastcdc = "3"
walkdir = "2"
urlencoding = "2"
keyring = "3"
directories = "5"
notify-debouncer-full = "0.5"
webbrowser = "1"
yup-oauth2 = "12"
async-trait = "0.1"
