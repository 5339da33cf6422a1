[package]
name = "image_dds"
version = "0.1.0"
edition = "2021"
publish = false

[dependencies]
bcdec_rs = "=0.2.1"
intel_tex_2 = "=0.2.2"
link-cplusplus = "=1.0.12"
ddsfile = "=0.5.2"
image = { version = "=0.24.9", default-features = false }
num-traits = "=0.2.19"
thiserror = "=1.0.69"
