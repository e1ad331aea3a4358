//! The logic behind the application's commands; the commands themselves, with
//! their file, process and window work, are the application's.
pub mod favorites;
pub mod convert;
pub mod download;
pub mod recording;
pub mod browser;
pub mod detect;
pub mod analyze;
pub mod browser_download;
