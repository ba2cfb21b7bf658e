//! The library's error type and the message each error reads as.
use vstd::prelude::*;

use crate::text::{decimal, push_str, u64_to_string};

verus! {

/// What can go wrong. The variants that in a running program carry an
/// HTTP, I/O or JSON error carry its message here.
#[derive(Debug, PartialEq, Eq)]
pub enum AppError {
    Request(String),
    Io(String),
    Json(String),
    InvalidResponse(String),
    NoResults(String),
    InvalidIndex { keyword: String, index: usize, max: usize },
    MissingModelUuid,
    MissingSymbolOrFootprint,
    Other(String),
}

/// `r` is the error `Other` with the message `msg`.
pub open spec fn is_other_error<T>(r: Result<T, AppError>, msg: Seq<char>) -> bool {
    match r {
        Err(AppError::Other(m)) => m@ == msg,
        _ => false,
    }
}

/// The message of an error.
pub open spec fn spec_message(e: AppError) -> Seq<char> {
    match e {
        AppError::Request(m) => "request failed: "@ + m@,
        AppError::Io(m) => "io error: "@ + m@,
        AppError::Json(m) => "json error: "@ + m@,
        AppError::InvalidResponse(m) => "invalid response from LCEDA: "@ + m@,
        AppError::NoResults(k) => "no results found for keyword: "@ + k@,
        AppError::InvalidIndex { keyword, index, max } => "invalid index "@ + decimal(index as nat)
            + ". Valid range: 1.."@ + decimal(max as nat) + " for keyword '"@ + keyword@ + "'."@,
        AppError::MissingModelUuid => "selected component has no 3D model UUID"@,
        AppError::MissingSymbolOrFootprint => "selected component has no symbol/footprint uuid"@,
        AppError::Other(m) => m@,
    }
}

fn prefixed(prefix: &str, text: &String) -> (r: String)
    ensures
        r@ == prefix@ + text@,
{
    let mut r = String::from_str(prefix);
    push_str(&mut r, text.as_str());
    r
}

impl AppError {
    /// The message the error reads as.
    pub fn message(&self) -> (r: String)
        ensures
            r@ == spec_message(*self),
    {
        match self {
            AppError::Request(m) => prefixed("request failed: ", m),
            AppError::Io(m) => prefixed("io error: ", m),
            AppError::Json(m) => prefixed("json error: ", m),
            AppError::InvalidResponse(m) => prefixed("invalid response from LCEDA: ", m),
            AppError::NoResults(k) => prefixed("no results found for keyword: ", k),
            AppError::InvalidIndex { keyword, index, max } => {
                let mut r = String::from_str("invalid index ");
                let i = u64_to_string(*index as u64);
                push_str(&mut r, i.as_str());
                push_str(&mut r, ". Valid range: 1..");
                let m = u64_to_string(*max as u64);
                push_str(&mut r, m.as_str());
                push_str(&mut r, " for keyword '");
                push_str(&mut r, keyword.as_str());
                push_str(&mut r, "'.");
                r
            },
            AppError::MissingModelUuid => String::from_str("selected component has no 3D model UUID"),
            AppError::MissingSymbolOrFootprint => String::from_str(
                "selected component has no symbol/footprint uuid",
            ),
            AppError::Other(m) => m.clone(),
        }
    }
}

} // verus!
