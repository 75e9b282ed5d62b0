[package]
name = "ridl_sem"
version = "0.1.0"
edition = "2021"
publish = false

[dependencies]
num-bigint = "=0.4.8"
num-rational = "=0.4.2"
regress = "=0.12.0"
