[package]
name = "thwack"
version = "0.1.0"
edition = "2021"
publish = false

[dependencies]
unicode-segmentation = "=1.13.3"
unicode-width = "=0.1.9"
crossterm = "=0.29.0"
git2 = "=0.21.0"
copypasta = "=0.10.2"
libc = "=0.2.190"
log = "=0.4.34"
