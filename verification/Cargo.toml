[package]
name = "paas_zkp"
version = "0.1.0"
edition = "2021"
publish = false

[dependencies]
rug = { version = "=1.30.0", default-features = false, features = ["integer", "rand", "std"] }
gmp-mpfr-sys = { version = "=1.7.1", default-features = false, features = ["use-system-libs"] }
p256 = { version = "=0.13.2", features = ["arithmetic"] }
elliptic-curve = { version = "=0.13.8", features = ["arithmetic"] }
rand = "=0.8.8"
rand_core = "=0.6.4"
serde = { version = "=1.0.229", features = ["derive"] }
fxhash = "=0.2.1"
lazy_static = "=1.5.1"
blind-rsa-signatures = "=0.15.2"

[dev-dependencies]
num-bigint = "0.4"
