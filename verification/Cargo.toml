[package]
name = "certified_assets"
version = "0.1.0"
edition = "2021"
publish = false

[dependencies]
sha2 = "0.10"
ic-certification = "2"
ic-stable-structures = "0.6"
candid = "0.10"
ic-cdk = "0.12"
ic-ledger-types = "0.9"
serde = { version = "1", features = ["derive"] }
serde_bytes = "0.11"
include_dir = "0.7"
mime = "0.3"
mime_guess = "2"
num-bigint = "0.4"
num-traits = "0.2"
ic-agent = "0.31"
ic-utils = "0.31"
icrc-ledger-types = "0.1"
backoff = { version = "0.4", features = ["futures", "tokio"] }
anyhow = "1"
slog = "2"
thiserror = "1"
fn-error-context = "0.2"
clap = "2"
console = "0.15"
indicatif = "0.15"
