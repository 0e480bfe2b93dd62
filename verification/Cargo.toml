[package]
name = "cmakemake"
version = "0.1.0"
edition = "2021"
publish = false

[dependencies]
colored = "*"
duct = "*"
git2 = { version = "*", default-features = false }
inquire = "*"
