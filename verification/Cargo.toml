[package]
name = "sdboot"
version = "0.1.0"
edition = "2021"
publish = false

[dependencies]
anyhow = "*"
clap = { version = "*", features = ["derive"] }
efivar = "*"
fern = { version = "*", features = ["colored"] }
libc = "*"
log = "*"
nix = "*"
rustyline = "*"
uuid = "*"
