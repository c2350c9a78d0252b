[package]
name = "geng-gltf"
version = "0.1.0"
edition = "2021"
publish = false

[dependencies]
batbox-color = "=0.16.0"
batbox-la = "=0.16.0"
gltf = "=1.4.1"
log = "=0.4.34"
thiserror = "=1.0.69"
ugli = "=0.17.2"
