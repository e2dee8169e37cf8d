//! Errors and results of downloads.
use vstd::prelude::*;
use crate::config::{Span, Strategy};

verus! {

/// Why a download failed. Errors of the HTTP client and of the file system
/// are carried as their messages.
#[derive(Debug, Clone)]
pub enum DownloadError {
    NetworkError(String),
    IoError(String),
    InvalidUrl(String),
    Anyhow(String),
    Unknown,
}

/// A finished download and how long it took; `path` names the file the
/// data went to, when it was not kept in memory.
#[derive(Debug, Clone)]
pub struct DownloadResult {
    pub data: Vec<u8>,
    pub path: Option<String>,
    pub size: u64,
    pub duration: Span,
    pub strategy: String,
    pub strategy_enum: Strategy,
}

} // verus!
