[package]
name = "rsbmalloc"
version = "0.1.0"
edition = "2021"
publish = false

[dependencies]
libc = "*"
num_cpus = "*"
once_cell = "*"
spin = "*"
lazy_static = "*"
