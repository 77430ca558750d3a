//! The URL normalizer: a pure, total transform that guarantees a schemed
//! URL. `://...` gets `http` prepended, a leading `:` expands to
//! `http://localhost`, anything without `://` gets `http://`, and an
//! already schemed URL passes through unchanged.

use vstd::prelude::*;

verus! {

/// The three-character scheme separator `://` starts at index `i` of `s`.
pub open spec fn scheme_sep_at(s: Seq<char>, i: int) -> bool {
    &&& 0 <= i
    &&& i + 3 <= s.len()
    &&& s[i] == ':'
    &&& s[i + 1] == '/'
    &&& s[i + 2] == '/'
}

/// `s` contains `://` somewhere.
pub open spec fn has_scheme_sep(s: Seq<char>) -> bool {
    exists|i: int| scheme_sep_at(s, i)
}

/// What the normalizer returns: the rules of the module doc, in order.
pub open spec fn normalized_url_spec(s: Seq<char>) -> Seq<char> {
    if scheme_sep_at(s, 0) {
        "http"@ + s
    } else if s.len() >= 1 && s[0] == ':' {
        "http://localhost"@ + s
    } else if !has_scheme_sep(s) {
        "http://"@ + s
    } else {
        s
    }
}

/// Whether `s` contains the scheme separator `://`.
fn contains_scheme_sep(s: &str) -> (r: bool)
    ensures
        r == has_scheme_sep(s@),
{
    let n = s.unicode_len();
    if n < 3 {
        proof {
            assert forall|j: int| !scheme_sep_at(s@, j) by {
                if scheme_sep_at(s@, j) {
                    assert(j + 3 <= n);
                }
            }
        }
        return false;
    }
    let mut i: usize = 0;
    while i <= n - 3
        invariant
            n >= 3,
            n == s@.len(),
            0 <= i <= n - 2,
            forall|j: int| 0 <= j < i ==> !scheme_sep_at(s@, j),
        decreases n - i,
    {
        if s.get_char(i) == ':' && s.get_char(i + 1) == '/' && s.get_char(i + 2) == '/' {
            proof {
                assert(scheme_sep_at(s@, i as int));
            }
            return true;
        }
        i += 1;
    }
    proof {
        assert forall|j: int| !scheme_sep_at(s@, j) by {
            if scheme_sep_at(s@, j) {
                assert(j + 3 <= n);
                assert(j < i);
            }
        }
    }
    false
}

/// Normalize a raw URL string; total, never fails.
pub fn normalize_url(raw: &str) -> (r: String)
    ensures
        r@ == normalized_url_spec(raw@),
{
    let n = raw.unicode_len();
    if n >= 3 && raw.get_char(0) == ':' && raw.get_char(1) == '/' && raw.get_char(2) == '/' {
        let mut s = String::from_str("http");
        s.append(raw);
        s
    } else if n >= 1 && raw.get_char(0) == ':' {
        let mut s = String::from_str("http://localhost");
        s.append(raw);
        s
    } else if !contains_scheme_sep(raw) {
        let mut s = String::from_str("http://");
        s.append(raw);
        s
    } else {
        String::from_str(raw)
    }
}

/// Normalization is idempotent: its result is already schemed, so a second
/// pass returns it unchanged.
pub proof fn lemma_normalize_idempotent(s: Seq<char>)
    ensures
        normalized_url_spec(normalized_url_spec(s)) == normalized_url_spec(s),
{
    reveal_strlit("http");
    reveal_strlit("http://localhost");
    reveal_strlit("http://");
    let r = normalized_url_spec(s);
    if scheme_sep_at(s, 0) {
        assert(r == "http"@ + s);
        assert(r[4] == s[0] && r[5] == s[1] && r[6] == s[2]);
        assert(scheme_sep_at(r, 4));
        assert(r[0] == 'h');
    } else if s.len() >= 1 && s[0] == ':' {
        assert(r == "http://localhost"@ + s);
        assert(scheme_sep_at(r, 4));
        assert(r[0] == 'h');
    } else if !has_scheme_sep(s) {
        assert(r == "http://"@ + s);
        assert(scheme_sep_at(r, 4));
        assert(r[0] == 'h');
    } else {
        assert(r == s);
    }
}

} // verus!
