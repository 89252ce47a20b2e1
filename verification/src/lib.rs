//! Core of a download manager that drives an external media-download tool:
//! job configuration, output segmentation, the per-job progress parser and
//! the registry of jobs.

pub mod application;
pub mod decode;
pub mod download;
pub mod download_options;
pub mod line_reader;
pub mod percent;
pub mod text;
pub mod utils;
pub mod yt_dlp;
