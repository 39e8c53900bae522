[package]
name = "lox"
version = "0.1.0"
edition = "2021"
publish = false

[dependencies]
tree_iterators_rs = "=1.2.1"
