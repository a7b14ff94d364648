[package]
name = "sphinx_scraper"
version = "0.1.0"
edition = "2021"
publish = false

[dependencies]
select = "*"
pyo3 = "*"
