//! Failures raised while assembling a request: a token that matches no item
//! grammar, an explicit method outside the known verbs, or no tokens at all.

use vstd::prelude::*;

verus! {

/// Everything that can go wrong before a request descriptor exists.
#[derive(Debug, Clone)]
pub enum HttpieError {
    /// The token matched none of the item grammars (no `=` and no `:`).
    Classification(String),
    /// An explicit method token outside the fixed verb enumeration.
    InvalidMethod(String),
    /// The token list was empty.
    MissingUrl,
}

/// The descriptive message carried by each error.
pub open spec fn message_spec(e: HttpieError) -> Seq<char> {
    match e {
        HttpieError::Classification(t) => "cannot parse request item '"@ + t@
            + "'; valid forms are Header:Value, key=value, key==value"@,
        HttpieError::InvalidMethod(t) => "invalid HTTP method: "@ + t@,
        HttpieError::MissingUrl => "missing URL argument"@,
    }
}

impl HttpieError {
    /// Human-readable description, suitable for `httpie: error: <cause>`.
    pub fn message(&self) -> (r: String)
        ensures
            r@ == message_spec(*self),
    {
        match self {
            HttpieError::Classification(t) => {
                let mut s = String::from_str("cannot parse request item '");
                s.append(t.as_str());
                s.append("'; valid forms are Header:Value, key=value, key==value");
                s
            },
            HttpieError::InvalidMethod(t) => {
                let mut s = String::from_str("invalid HTTP method: ");
                s.append(t.as_str());
                s
            },
            HttpieError::MissingUrl => String::from_str("missing URL argument"),
        }
    }
}

} // verus!
