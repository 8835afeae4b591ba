[package]
name = "changeset_store"
version = "0.1.0"
edition = "2021"
publish = false

[dependencies]
anyhow = "1"
byteorder = "1"
parking_lot = "*"
sapling-indexedlog = "*"
sapling-minibytes = "*"
sapling-vlqencoding = "*"

[dev-dependencies]
tempfile = "3"
