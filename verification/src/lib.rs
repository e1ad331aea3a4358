//! Verified core of a stream/video downloader: playlist and manifest parsing,
//! segment decryption planning, filename and URL handling, scraping pipelines.
pub mod text;
pub mod urls;
pub mod sorting;
pub mod engine;
pub mod hls;
pub mod scraper;
pub mod platform;
pub mod ffmpeg;
pub mod ytdlp;
pub mod types;
pub mod license;
pub mod mp4patch;
pub mod dash;
pub mod commands;
