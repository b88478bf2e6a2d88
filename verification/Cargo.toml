[package]
name = "debian_packaging"
version = "0.1.0"
edition = "2021"
publish = false

[dependencies]
bzip2 = "*"
libflate = "*"
mailparse = "*"
md-5 = "*"
sha1 = "*"
sha2 = "*"
url = "*"
xz2 = "*"
zstd = "*"

[dev-dependencies]
hex = "*"
