//! The HTTP method resolver: recognize the nine known verbs
//! case-insensitively, and infer POST or GET from the presence of body
//! fields when no explicit method token is given.

use vstd::prelude::*;
use crate::error::HttpieError;

verus! {

/// The fixed enumeration of HTTP verbs this client knows.
#[derive(PartialEq, Eq, Structural, Clone, Copy, Debug)]
pub enum Method {
    Get,
    Post,
    Put,
    Delete,
    Patch,
    Head,
    Options,
    Trace,
    Connect,
}

/// ASCII uppercase of one character; anything but `a`..`z` is unchanged.
pub open spec fn upper_char(c: char) -> char {
    if c == 'a' { 'A' } else if c == 'b' { 'B' } else if c == 'c' { 'C' }
    else if c == 'd' { 'D' } else if c == 'e' { 'E' } else if c == 'f' { 'F' }
    else if c == 'g' { 'G' } else if c == 'h' { 'H' } else if c == 'i' { 'I' }
    else if c == 'j' { 'J' } else if c == 'k' { 'K' } else if c == 'l' { 'L' }
    else if c == 'm' { 'M' } else if c == 'n' { 'N' } else if c == 'o' { 'O' }
    else if c == 'p' { 'P' } else if c == 'q' { 'Q' } else if c == 'r' { 'R' }
    else if c == 's' { 'S' } else if c == 't' { 'T' } else if c == 'u' { 'U' }
    else if c == 'v' { 'V' } else if c == 'w' { 'W' } else if c == 'x' { 'X' }
    else if c == 'y' { 'Y' } else if c == 'z' { 'Z' } else { c }
}

/// ASCII uppercase of a whole string.
pub open spec fn upper_seq(s: Seq<char>) -> Seq<char> {
    s.map_values(|c: char| upper_char(c))
}

/// The verb a token names, after ASCII uppercasing, if it names one.
pub open spec fn method_of(s: Seq<char>) -> Option<Method> {
    if upper_seq(s) == "GET"@ { Some(Method::Get) }
    else if upper_seq(s) == "POST"@ { Some(Method::Post) }
    else if upper_seq(s) == "PUT"@ { Some(Method::Put) }
    else if upper_seq(s) == "DELETE"@ { Some(Method::Delete) }
    else if upper_seq(s) == "PATCH"@ { Some(Method::Patch) }
    else if upper_seq(s) == "HEAD"@ { Some(Method::Head) }
    else if upper_seq(s) == "OPTIONS"@ { Some(Method::Options) }
    else if upper_seq(s) == "TRACE"@ { Some(Method::Trace) }
    else if upper_seq(s) == "CONNECT"@ { Some(Method::Connect) }
    else { None }
}

/// The token names one of the nine verbs, in any letter case.
pub open spec fn is_method_spec(s: Seq<char>) -> bool {
    method_of(s) is Some
}

/// The method used when none is written: POST with body fields, else GET.
pub open spec fn inferred_method(has_data: bool) -> Method {
    if has_data {
        Method::Post
    } else {
        Method::Get
    }
}

/// ASCII uppercase of one character.
fn to_upper(c: char) -> (r: char)
    ensures
        r == upper_char(c),
{
    match c {
        'a' => 'A', 'b' => 'B', 'c' => 'C', 'd' => 'D', 'e' => 'E', 'f' => 'F',
        'g' => 'G', 'h' => 'H', 'i' => 'I', 'j' => 'J', 'k' => 'K', 'l' => 'L',
        'm' => 'M', 'n' => 'N', 'o' => 'O', 'p' => 'P', 'q' => 'Q', 'r' => 'R',
        's' => 'S', 't' => 'T', 'u' => 'U', 'v' => 'V', 'w' => 'W', 'x' => 'X',
        'y' => 'Y', 'z' => 'Z',
        _ => c,
    }
}

/// Whether the ASCII uppercase of `s` equals `t` exactly.
pub fn eq_upper(s: &str, t: &str) -> (r: bool)
    ensures
        r == (upper_seq(s@) == t@),
{
    let n = s.unicode_len();
    let m = t.unicode_len();
    if n != m {
        proof {
            assert(upper_seq(s@).len() == n);
        }
        return false;
    }
    let mut i: usize = 0;
    while i < n
        invariant
            0 <= i <= n,
            n == s@.len(),
            n == t@.len(),
            forall|j: int| 0 <= j < i ==> upper_seq(s@)[j] == t@[j],
        decreases n - i,
    {
        if to_upper(s.get_char(i)) != t.get_char(i) {
            proof {
                assert(upper_seq(s@)[i as int] != t@[i as int]);
            }
            return false;
        }
        i += 1;
    }
    proof {
        assert(upper_seq(s@) =~= t@);
    }
    true
}

/// The verb a token names, if it names one of the nine.
pub fn method_from_str(s: &str) -> (r: Option<Method>)
    ensures
        r == method_of(s@),
{
    if eq_upper(s, "GET") { Some(Method::Get) }
    else if eq_upper(s, "POST") { Some(Method::Post) }
    else if eq_upper(s, "PUT") { Some(Method::Put) }
    else if eq_upper(s, "DELETE") { Some(Method::Delete) }
    else if eq_upper(s, "PATCH") { Some(Method::Patch) }
    else if eq_upper(s, "HEAD") { Some(Method::Head) }
    else if eq_upper(s, "OPTIONS") { Some(Method::Options) }
    else if eq_upper(s, "TRACE") { Some(Method::Trace) }
    else if eq_upper(s, "CONNECT") { Some(Method::Connect) }
    else { None }
}

/// Whether a token names one of the nine verbs, case-insensitively.
pub fn is_method(s: &str) -> (r: bool)
    ensures
        r == is_method_spec(s@),
{
    method_from_str(s).is_some()
}

/// Resolve the request method: an explicit token must name a known verb
/// and always wins; with none, body fields make it POST, else GET.
pub fn resolve_method(explicit: Option<&String>, has_data: bool) -> (r: Result<Method, HttpieError>)
    ensures
        match explicit {
            Some(s) => match method_of(s@) {
                Some(m) => r matches Ok(mm) && mm == m,
                None => r matches Err(e) && e matches HttpieError::InvalidMethod(t) && t@ == s@,
            },
            None => r matches Ok(m) && m == inferred_method(has_data),
        },
{
    match explicit {
        Some(s) => match method_from_str(s.as_str()) {
            Some(m) => Ok(m),
            None => Err(HttpieError::InvalidMethod(s.clone())),
        },
        None => {
            if has_data {
                Ok(Method::Post)
            } else {
                Ok(Method::Get)
            }
        },
    }
}

} // verus!
