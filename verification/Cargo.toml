[package]
name = "brushkit"
version = "0.2.0"
edition = "2021"
publish = false

[dependencies]
ab_glyph = "=0.2.32"
byteorder = "=1.5.0"
flate2 = "=1.1.10"
image = { version = "=0.25.10", default-features = false, features = ["png", "jpeg", "bmp"] }
plist = { version = "=1.10.3", features = ["enable_unstable_features_that_may_break_with_minor_version_bumps"] }
png = "=0.18.1"
serde = { version = "1", features = ["derive"] }
thiserror = "2"
zip = { version = "=7.4.0", default-features = false, features = ["deflate"] }
zune-core = "=0.5.3"
zune-jpeg = "=0.5.15"
