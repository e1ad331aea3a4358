//! The scraping engine: spider configuration, field extraction rules, the
//! item-cleaning pipeline, exports and the crawl loop's decisions.
pub mod types;
pub mod pipeline;
pub mod selector;
pub mod spider;
pub mod middleware;
pub mod exporter;
pub mod engine;

