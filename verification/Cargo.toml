[package]
name = "vm_library"
version = "0.1.0"
edition = "2021"
publish = false

[dependencies]
bincode = "1"
blake2 = "0.10"
bs58 = "0.4"
fnv = "1"
im-rc = "15"
nix = "0.24"
once_cell = "1"
rug = "1"
serde = { version = "1", features = ["derive"] }
serde_json = "1"
sha2 = "0.10"
slotmap = "1"
thiserror = "1"
wasmer = "2"
wasmer-compiler-singlepass = "2"
wasmer-middlewares = "2"
