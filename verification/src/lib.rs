//! Verified core of the squid static site generator.
pub mod text;
pub mod value;
pub mod order;
pub mod sorted;
pub mod gather;
pub mod tinylang;
pub mod tags;
pub mod md;
pub mod settings;
pub mod sitemap;
pub mod highlight;
pub mod entities;
pub mod rss;
pub mod app;
pub mod http;
