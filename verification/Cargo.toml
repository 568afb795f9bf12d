[package]
name = "geohash_polygon"
version = "0.1.0"
edition = "2021"
publish = false

[dependencies]
geo-types = "*"
geohash = "*"
geozero = { version = "*", default-features = false, features = ["with-wkt", "with-wkb", "with-geo"] }

[dev-dependencies]
geo = "*"
