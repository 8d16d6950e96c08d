[package]
name = "reference_trie"
version = "0.1.0"
edition = "2021"
publish = false

[dependencies]
parity-codec = "*"
keccak-hasher = "*"
hash-db = "*"
trie-db = "*"
trie-root = "*"
