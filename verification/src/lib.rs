//! A download engine: strategy selection, retries with fallback, ranged
//! chunk planning, a buffer pool, metrics, browser-like headers, and link
//! extraction from pages.
pub mod buffer;
pub mod bypass;
pub mod config;
pub mod engine;
pub mod error;
pub mod extractor;
pub mod metrics;
pub mod patterns;
pub mod random;
pub mod static_analysis;
pub mod strategies;
pub mod tcp_optimizer;
pub mod text;
pub mod urls;

pub use crate::config::{DownloadConfig, Span, Strategy};
pub use crate::engine::LeechEngine;
pub use crate::error::{DownloadError, DownloadResult};
pub use crate::metrics::DownloadMetrics;
