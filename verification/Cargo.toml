[package]
name = "stellar_pass"
version = "0.1.0"
edition = "2021"
publish = false

[dependencies]
rust-argon2 = "=1.0.1"
rand = "=0.8.8"
zeroize = "=1.9.1"
rusqlite = { version = "=0.31.0", features = ["bundled"] }
regex = "=1.13.1"
rpassword = "=7.5.4"
ncurses = "=5.101.0"
arboard = "=3.6.1"
