[package]
name = "voiceconv"
version = "0.1.0"
edition = "2021"
publish = false

[dependencies]
fon = "=0.6.0"
wav = "=1.0.1"
plotters = "=0.3.7"
plotters-backend = "=0.3.7"

[dev-dependencies]
ndarray = "=0.17.2"
ndrustfft = "=0.6.2"
