[package]
name = "glif_parser"
version = "0.1.0"
edition = "2021"
publish = false

[dependencies]
norad = "=0.6.0"
plist = "=1.3.1"
quick-xml = "=0.22.0"
thiserror = "=1.0.69"
# plist turns every date of a property list to UTC with a call of `time` that
# panics where the year leaves the range that `time` supports. With
# `large-dates` that range holds every date that can be written with the four
# digits of a year and an offset, so that no date in a document can panic.
time = { version = "=0.3.55", features = ["large-dates"] }
