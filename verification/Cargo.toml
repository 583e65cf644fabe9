[package]
name = "confined_wasm"
version = "0.1.0"
edition = "2021"
publish = false

[dependencies]
aes-gcm-siv = "0.11"
anyhow = "1"
async-stream = "0.3"
bytes = "1"
ciborium = "0.2"
clap = { version = "4", default-features = false, features = ["std", "help", "usage", "error-context", "derive", "env"] }
coset = "0.3"
hpke = { version = "0.12", features = ["std"] }
log = "0.4"
nix = { version = "0.29", features = ["user"] }
p256 = { version = "0.13", features = ["ecdsa"] }
prost = "0.13"
prost-types = "0.13"
sha2 = "0.10"
syslog = "6"
tar = { version = "0.4", default-features = false }
tokio = { version = "1", features = ["full"] }
tokio-stream = { version = "0.1", features = ["net"] }
tokio-util = "0.7"
tonic = "0.12"
wasmtime = { version = "25.0.3", default-features = false, features = ["async", "component-model", "cranelift", "gc", "parallel-compilation", "runtime", "std", "threads", "wat"] }
wasmtime-wasi = { version = "25.0.3", default-features = false, features = ["preview1"] }

[dev-dependencies]
rand_core = { version = "0.6", features = ["getrandom"] }
