[package]
name = "ftl"
version = "0.1.0"
edition = "2021"
publish = false

[dependencies]
fluent-syntax = "0.12"
unic-langid = "0.9"
icu_calendar = "2"
icu_datetime = "2"
icu_time = "2"
icu_locale_core = "2"
icu_decimal = "2"
fixed_decimal = { version = "0.7", features = ["ryu"] }
writeable = "0.6"
