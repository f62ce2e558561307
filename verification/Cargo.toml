[package]
name = "ouroboros"
version = "0.1.0"
edition = "2021"
publish = false

[dependencies]
borsh = "0.10"
bs58 = "0.4"
solana-program = "1.16"
