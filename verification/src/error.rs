//! The library's error type and the messages it displays.
use vstd::prelude::*;
use crate::outside::{debug_text, debug_string, io_error_text};

verus! {

#[derive(Debug)]
pub enum CdnError {
    CacheError(String),
    LoadBalancerError(String),
    ConfigError(String),
    IoError(std::io::Error),
    InvalidHeader { expected: String, found: String },
}

impl CdnError {
    /// The message the error displays.
    pub fn message(&self) -> (text: String)
        ensures
            match self {
                CdnError::CacheError(m) => text@ == "Cache error: "@ + m@,
                CdnError::LoadBalancerError(m) => text@ == "Load balancer error: "@ + m@,
                CdnError::ConfigError(m) => text@ == "Configuration error: "@ + m@,
                CdnError::IoError(_) => exists|t: Seq<char>| text@ == "IO error: "@ + t,
                CdnError::InvalidHeader { expected, found } => text@ == "invalid header (expected "@
                    + debug_text(expected@) + ", found "@ + debug_text(found@) + ")"@,
            },
    {
        match self {
            CdnError::CacheError(m) => String::from_str("Cache error: ").concat(m.as_str()),
            CdnError::LoadBalancerError(m) => String::from_str("Load balancer error: ").concat(
                m.as_str(),
            ),
            CdnError::ConfigError(m) => String::from_str("Configuration error: ").concat(m.as_str()),
            CdnError::IoError(e) => {
                let t = io_error_text(e);
                String::from_str("IO error: ").concat(t.as_str())
            },
            CdnError::InvalidHeader { expected, found } => {
                let e = debug_string(expected);
                let f = debug_string(found);
                String::from_str("invalid header (expected ").concat(e.as_str()).concat(
                    ", found ",
                ).concat(f.as_str()).concat(")")
            },
        }
    }
}

impl From<std::io::Error> for CdnError {
    fn from(e: std::io::Error) -> (err: CdnError) {
        CdnError::IoError(e)
    }
}

impl vstd::std_specs::convert::FromSpecImpl<std::io::Error> for CdnError {
    open spec fn obeys_from_spec() -> bool {
        true
    }

    open spec fn from_spec(v: std::io::Error) -> CdnError {
        CdnError::IoError(v)
    }
}

} // verus!
