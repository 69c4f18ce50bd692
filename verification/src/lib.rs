//! The logic of `pr0dl`, a downloader for pr0gramm.com: which requests to make,
//! what to make of the replies, and when to try again.

pub mod api;
pub mod cli;
pub mod download_file;
pub mod downloader;
pub mod file_names;
pub mod headers;
pub mod media;
pub mod rate_limit;
pub mod retry;
pub mod text;
pub mod url_list;
