//! Verified core of the nur-blog plugin: settings validation, locale
//! resolution, URL building, sitemap and robots rendering, request parsing
//! and the SQL statements that persist the blog settings.

pub mod text;
pub mod http;
pub mod config;
pub mod view;
pub mod markup;
pub mod content;
pub mod sitemap;
pub mod robots;
pub mod request;
pub mod routes;
pub mod configuration;
pub mod pages;
