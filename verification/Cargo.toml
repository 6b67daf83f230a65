[package]
name = "takoyaki_arm"
version = "0.1.0"
edition = "2021"

[dependencies]
proconio = "0.4"
