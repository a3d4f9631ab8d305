[package]
name = "crucible"
version = "0.1.0"
edition = "2021"
publish = false

[dependencies]
regex = "1"
libc = "0.2"
gtk4 = { version = "0.10", features = ["v4_12"] }
glib = "0.21"
gio = "0.21"
cairo-rs = "0.21"
libadwaita = { version = "0.8", features = ["v1_7"] }
