[package]
name = "int8_gadget"
version = "0.1.0"
edition = "2021"
publish = false

[dependencies]
ark-bls12-381 = "0.4"
ark-ff = "0.4"
ark-r1cs-std = "0.4"
ark-relations = "0.4"
