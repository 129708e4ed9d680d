[package]
name = "zk_identity"
version = "0.1.0"
edition = "2021"
publish = false

[dependencies]
ark-bn254 = "*"
ark-ec = "*"
ark-ff = "*"
ark-groth16 = "*"
ark-relations = "*"
ark-serialize = "*"
ark-snark = "*"
ark-std = "*"
base64 = "*"
sha2 = "*"
