[package]
name = "bwtui"
version = "0.1.0"
edition = "2021"
publish = false

[dependencies]
simple_crypt = "=0.2.3"
anyhow = "=1.0.104"
zeroize = "=1.9.1"
rand = "=0.8.8"
ratatui = "=0.28.1"
cli-clipboard = "=0.4.0"
rpassword = "=7.5.4"
