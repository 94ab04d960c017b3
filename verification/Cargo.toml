[package]
name = "ikigai-conformance"
version = "0.2.0"
edition = "2021"
publish = false

[dependencies]
futures = "*"
ikigai-core = "*"
ikigai-vocab = "*"
oxrdf = "*"
oxrdfio = "*"
