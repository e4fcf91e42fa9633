[package]
name = "fff_core"
version = "0.1.0"
edition = "2021"
publish = false

[dependencies]
git2 = "*"
ignore = "*"
neo_frizbee = "*"
notify = "*"
notify-debouncer-full = "*"
pathdiff = "*"
strsim = "*"
