[package]
name = "docker_compose_test"
version = "0.1.0"
edition = "2021"
publish = false

[dependencies]
minimal-yaml = "*"
pico-args = "*"
tempfile = "*"
