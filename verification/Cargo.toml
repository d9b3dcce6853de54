[package]
name = "code-vm-api"
version = "0.2.0"
edition = "2021"
publish = false

[dependencies]
solana-program = "=2.3.0"
solana-curve25519 = "=2.3.13"
curve25519-dalek = "=4.1.3"
solana-ed25519-sha512 = "=0.1.0"
bs58 = "=0.5.1"
spl-token = "=7.0.0"
sha2 = "=0.10.9"

[dev-dependencies]
borsh = "=1.8.1"
solana-keypair = "=2.2.3"
solana-signer = "=2.2.1"
