[package]
name = "lps25hb"
version = "0.1.0"
edition = "2021"
publish = false

[dependencies]
cortex-m-rt = "*"
panic-halt = "*"
stm32f4xx-hal = { version = "0.9", features = ["stm32f401", "rt"] }
