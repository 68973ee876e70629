[package]
name = "sysfetch"
version = "0.1.0"
edition = "2021"
rust-version = "1.95"
publish = false

[dependencies]
average = "=0.15.1"
clap = { version = "=4.6.7", features = ["cargo"] }
crossterm = "=0.28.1"
csscolorparser = "=0.6.2"
detect-desktop-environment = "=1.3.0"
# A dependency of average: from 0.5.5 on it asks for a newer compiler than rust-version.
easy-cast = ">=0.5.0, <0.5.5"
image = { version = "=0.25.10", default-features = false, features = ["png", "jpeg", "gif", "bmp", "webp"] }
owo-colors = "=4.4.0"
regex = "=1.13.1"
sysinfo = "=0.31.4"
text-splitter = "=0.14.1"
viuer = "=0.9.2"
which = "=6.0.3"
