[package]
name = "speedy_transform"
version = "0.1.0"
edition = "2021"
publish = false

[dependencies]
napi = "*"
swc = "*"
swc_common = "*"
swc_ecma_ast = "*"
swc_ecma_parser = "*"
swc_ecma_transforms = "*"
swc_ecma_visit = "*"
