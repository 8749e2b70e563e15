[package]
name = "nctui"
version = "0.8.0"
edition = "2021"
publish = false

[dependencies]
indexmap = "2"
ratatui = "0.29"
crossterm = "0.28"
netcdf = "*"
