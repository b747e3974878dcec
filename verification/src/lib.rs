//! A static site generator: content pages with front matter, grouped by
//! collection and tag, with an RSS feed, a sitemap and a small file server.
//!
//! Text is modelled as sequences of characters and paths as text with `/`
//! between components; every public function states its result over these
//! models.
pub mod config;
pub mod graph;
pub mod groups;
pub mod laws;
pub mod parser;
pub mod paths;
pub mod render;
pub mod rss;
pub mod serve;
pub mod site;
pub mod site_build;
pub mod sitemap;
pub mod tags;
pub mod text;
pub mod types;
