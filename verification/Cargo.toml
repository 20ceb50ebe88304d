[package]
name = "string_interner"
version = "0.1.0"
edition = "2021"
publish = false
