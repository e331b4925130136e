[package]
name = "wip_argument"
version = "0.1.0"
edition = "2021"
publish = false

[dependencies]
pasta_curves = "0.5"
halo2_proofs = "0.3"
ff = "0.13"
group = "0.13"
rand = "0.8"
rand_core = "0.6"
