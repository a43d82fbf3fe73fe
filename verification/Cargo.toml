[package]
name = "black_scholes_mc"
version = "0.1.0"
edition = "2021"
publish = false

[dependencies]
ndarray = "0.16"
plotly = "*"
rand = "0.8"
rand_distr = "0.4"
statrs = "*"
