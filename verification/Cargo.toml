[package]
name = "interceptions"
version = "0.1.0"
edition = "2021"
publish = false

[dependencies]
adsbx_json = "=21.1.0"
bzip2 = "=0.6.1"
chrono = "=0.4.45"
indicatif = "0.17"
pariter = "=0.6.0"
rstar = "=0.13.0"
