//! What the download strategies decide, apart from the transfers themselves.
pub mod memory;
pub mod parallel;

use vstd::prelude::*;
use crate::text::{chars_of, parse_u64, parsed_u64, same_chars};

verus! {

broadcast use vstd::string::group_string_axioms;

/// The parts of a HEAD response that the strategies read. A header is present
/// here only when its value is visible ASCII text.
#[derive(Debug, Clone)]
pub struct HeadInfo {
    /// The status was a 2xx success.
    pub success: bool,
    pub content_length: Option<String>,
    pub accept_ranges: Option<String>,
    pub content_type: Option<String>,
}

/// The size that the `Content-Length` header announces, when it is a valid
/// unsigned decimal number.
pub open spec fn announced_length(h: HeadInfo) -> Option<u64> {
    match h.content_length {
        Some(s) => parsed_u64(s@),
        None => None,
    }
}

/// The server announced `Accept-Ranges: bytes`.
pub open spec fn accepts_byte_ranges(h: HeadInfo) -> bool {
    match h.accept_ranges {
        Some(s) => s@ == "bytes"@,
        None => false,
    }
}

impl HeadInfo {
    /// The announced size, if the `Content-Length` header holds one.
    pub fn content_length_value(&self) -> (r: Option<u64>)
        ensures
            r == announced_length(*self),
    {
        match &self.content_length {
            Some(s) => parse_u64(chars_of(s.as_str()).as_slice()),
            None => None,
        }
    }

    /// Whether the server supports byte-range requests.
    pub fn supports_byte_ranges(&self) -> (r: bool)
        ensures
            r == accepts_byte_ranges(*self),
    {
        proof {
            reveal_strlit("bytes");
        }
        match &self.accept_ranges {
            Some(s) => same_chars(chars_of(s.as_str()).as_slice(), chars_of("bytes").as_slice()),
            None => false,
        }
    }
}

} // verus!
