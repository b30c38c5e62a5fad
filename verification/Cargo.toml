[package]
name = "gpxfilter"
version = "0.1.0"
edition = "2021"
publish = false

[dependencies]
gpx = "*"
regex = "*"
structopt = "*"
unicode-bom = "*"
