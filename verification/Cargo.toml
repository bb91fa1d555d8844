[package]
name = "lending_iter"
version = "0.1.0"
edition = "2021"
publish = false

[dependencies]
stable_try_trait_v2 = "*"
