[package]
name = "pdf_signer"
version = "0.1.0"
edition = "2021"
publish = false

[dependencies]
cbc = { version = "=0.1.2", features = ["alloc", "block-padding"] }
cms = { version = "=0.2.3", features = ["builder"] }
const-oid = { version = "=0.9.6", features = ["db"] }
der = { version = "=0.7.10", features = ["derive", "oid", "std", "pem"] }
des = "=0.8.1"
ed25519 = { version = "=2.2.3", features = ["std"] }
ed25519-dalek = { version = "=2.2.0", features = ["pkcs8", "rand_core"] }
flate2 = "=1.1.10"
lopdf = { version = "=0.39.0", default-features = false }
p12-keystore = "=0.2.1"
p256 = { version = "=0.13.2", features = ["ecdsa", "pkcs8"] }
p384 = { version = "=0.13.1", features = ["ecdsa", "pkcs8"] }
pkcs12 = { version = "=0.1.0", features = ["kdf"] }
pkcs5 = { version = "=0.7.1", features = ["alloc", "pbes2"] }
png = "=0.18.1"
rand = "=0.8.8"
rc2 = "=0.8.1"
rsa = { version = "=0.9.10", features = ["sha2"] }
sha1 = { version = "=0.10.7", features = ["oid"] }
sha2 = { version = "=0.10.9", features = ["oid"] }
signature = "=2.2.0"
spki = "=0.7.3"
thiserror = "=2.0.21"
ttf-parser = "=0.25.1"
x509-cert = { version = "=0.2.5", features = ["builder", "pem"] }
x509-ocsp = { version = "=0.2.1", features = ["builder"] }
