[package]
name = "dsp_blocks"
version = "0.1.0"
edition = "2021"
publish = false

[dependencies]
rustfft = "=6.4.1"
num-complex = { version = "=0.4.6", features = ["bytemuck"] }
bytemuck = "*"
anyhow = "=1.0.104"
log = "=0.4.34"
soapysdr = "=0.5.1"
