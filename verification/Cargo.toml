[package]
name = "ceph_command_parser"
version = "0.1.0"
edition = "2021"
publish = false

[dependencies]
nom = "1.2"
log = "0.4"
simple_logger = "5"
