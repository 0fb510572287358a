[package]
name = "lindenmayer"
version = "0.1.0"
edition = "2021"
publish = false

[dependencies]
meval = "0.2"
csscolorparser = "0.6"
rand = "0.8"
rand_pcg = "0.3"
rand_seeder = "0.2"
gtk4 = { version = "0.6", features = ["v4_10"] }
cairo-rs = "0.17"
glib = "0.17"
gio = "0.17"
log = "0.4"
env_logger = "0.10"
