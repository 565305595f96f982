use vstd::prelude::*;

verus! {

/// Errors surfaced by the library's request helpers.
#[derive(Debug)]
pub enum TradierError {
    HttpError(String),
    JsonError(String),
}

impl TradierError {
    /// Human-readable description, mirroring the variant and its detail.
    pub fn message(&self) -> (r: String)
        ensures
            match self {
                TradierError::HttpError(msg) => r@ == "HTTP error: "@ + msg@,
                TradierError::JsonError(msg) => r@ == "JSON parsing error: "@ + msg@,
            },
    {
        match self {
            TradierError::HttpError(msg) => {
                let mut r = String::new();
                r.append("HTTP error: ");
                r.append(msg.as_str());
                r
            },
            TradierError::JsonError(msg) => {
                let mut r = String::new();
                r.append("JSON parsing error: ");
                r.append(msg.as_str());
                r
            },
        }
    }
}

} // verus!
