//! The token classifier: one raw command-line token becomes a typed request
//! item — header, JSON body field, or URL query parameter.
//!
//! Priority: a `==` anywhere makes a query parameter, split at its first
//! occurrence; otherwise the earlier of the first `=` and the first `:`
//! decides between body field and header; a token with neither fails.

use vstd::prelude::*;
use crate::error::HttpieError;
use crate::strutil::{find_char, find_double_eq, double_eq_at, lemma_find_char,
    lemma_find_double_eq, find_char_str, find_double_eq_str};

verus! {

/// The three item grammars a token can match.
#[derive(PartialEq, Eq, Structural, Clone, Copy, Debug)]
pub enum ItemKind {
    Header,
    DataField,
    QueryParam,
}

/// A classified request item: an HTTP header, a JSON body field, or a URL
/// query parameter, each as a key/value pair of the token's two halves.
#[derive(Debug, Clone, PartialEq, Eq)]
pub enum RequestItem {
    Header(String, String),
    DataField(String, String),
    QueryParam(String, String),
}

impl RequestItem {
    /// Which grammar this item came from.
    pub open spec fn kind(self) -> ItemKind {
        match self {
            RequestItem::Header(_, _) => ItemKind::Header,
            RequestItem::DataField(_, _) => ItemKind::DataField,
            RequestItem::QueryParam(_, _) => ItemKind::QueryParam,
        }
    }

    /// The part of the token before the delimiter.
    pub open spec fn key(self) -> Seq<char> {
        match self {
            RequestItem::Header(k, _) => k@,
            RequestItem::DataField(k, _) => k@,
            RequestItem::QueryParam(k, _) => k@,
        }
    }

    /// The part of the token after the delimiter.
    pub open spec fn value(self) -> Seq<char> {
        match self {
            RequestItem::Header(_, v) => v@,
            RequestItem::DataField(_, v) => v@,
            RequestItem::QueryParam(_, v) => v@,
        }
    }
}

/// What the classifier returns for a token: the item grammar it matches
/// and the key/value split, or `None` when no grammar matches.
pub open spec fn classify_spec(s: Seq<char>) -> Option<(ItemKind, Seq<char>, Seq<char>)> {
    match find_double_eq(s) {
        Some(i) => Some((ItemKind::QueryParam, s.subrange(0, i), s.subrange(i + 2, s.len() as int))),
        None => match (find_char(s, '='), find_char(s, ':')) {
            (Some(e), Some(c)) => if c < e {
                Some((ItemKind::Header, s.subrange(0, c), s.subrange(c + 1, s.len() as int)))
            } else {
                Some((ItemKind::DataField, s.subrange(0, e), s.subrange(e + 1, s.len() as int)))
            },
            (Some(e), None) => Some((ItemKind::DataField, s.subrange(0, e), s.subrange(e + 1, s.len() as int))),
            (None, Some(c)) => Some((ItemKind::Header, s.subrange(0, c), s.subrange(c + 1, s.len() as int))),
            (None, None) => None,
        },
    }
}

/// The returned item agrees with `classify_spec` on kind, key and value.
pub open spec fn item_matches(it: RequestItem, s: Seq<char>) -> bool {
    match classify_spec(s) {
        Some((kind, key, value)) => it.kind() == kind && it.key() == key && it.value() == value,
        None => false,
    }
}

/// Whenever a token contains `==`, the classifier makes a query parameter,
/// split at the first `==`, whatever `=` or `:` stand elsewhere in it.
pub proof fn lemma_query_param_precedence(s: Seq<char>, i: int)
    requires
        double_eq_at(s, i),
    ensures
        classify_spec(s) matches Some((kind, key, value))
            && kind == ItemKind::QueryParam
            && exists|f: int| #[trigger] double_eq_at(s, f)
                && (forall|j: int| 0 <= j < f ==> !double_eq_at(s, j))
                && key == s.subrange(0, f)
                && value == s.subrange(f + 2, s.len() as int),
{
    lemma_find_double_eq(s);
    match find_double_eq(s) {
        Some(f) => {
            assert(double_eq_at(s, f) && (forall|j: int| 0 <= j < f ==> !double_eq_at(s, j))
                && classify_spec(s).unwrap().1 == s.subrange(0, f)
                && classify_spec(s).unwrap().2 == s.subrange(f + 2, s.len() as int));
        },
        None => {
            assert(!double_eq_at(s, i));
        },
    }
}

/// Classify one raw token.
///
/// Succeeds exactly when the token holds a `=` or a `:`; the error carries
/// the offending token.
pub fn parse_item(item: &str) -> (r: Result<RequestItem, HttpieError>)
    ensures
        match classify_spec(item@) {
            Some(_) => r matches Ok(it) && item_matches(it, item@),
            None => r matches Err(e) && e matches HttpieError::Classification(t) && t@ == item@,
        },
{
    let n = item.unicode_len();
    if let Some(i) = find_double_eq_str(item) {
        let key = item.substring_char(0, i);
        let value = item.substring_char(i + 2, n);
        return Ok(RequestItem::QueryParam(String::from_str(key), String::from_str(value)));
    }
    let eq_pos = find_char_str(item, '=');
    let colon_pos = find_char_str(item, ':');
    proof {
        lemma_find_char(item@, '=');
        lemma_find_char(item@, ':');
    }
    match (eq_pos, colon_pos) {
        (Some(e), Some(c)) => {
            if c < e {
                Ok(RequestItem::Header(
                    String::from_str(item.substring_char(0, c)),
                    String::from_str(item.substring_char(c + 1, n)),
                ))
            } else {
                Ok(RequestItem::DataField(
                    String::from_str(item.substring_char(0, e)),
                    String::from_str(item.substring_char(e + 1, n)),
                ))
            }
        },
        (Some(e), None) => Ok(RequestItem::DataField(
            String::from_str(item.substring_char(0, e)),
            String::from_str(item.substring_char(e + 1, n)),
        )),
        (None, Some(c)) => Ok(RequestItem::Header(
            String::from_str(item.substring_char(0, c)),
            String::from_str(item.substring_char(c + 1, n)),
        )),
        (None, None) => Err(HttpieError::Classification(String::from_str(item))),
    }
}

} // verus!
