//! Character-level search helpers shared by the token classifier and the
//! URL normalizer: first occurrence of a character or of the two-character
//! sequence `==`, and ASCII case folding.

use vstd::prelude::*;

verus! {

/// Index of the first occurrence of `c` in `s`, if any.
pub open spec fn find_char(s: Seq<char>, c: char) -> Option<int>
    decreases s.len(),
{
    if s.len() == 0 {
        None
    } else if s[0] == c {
        Some(0int)
    } else {
        match find_char(s.drop_first(), c) {
            Some(i) => Some(i + 1),
            None => None,
        }
    }
}

/// `find_char` returns the least index holding `c`, or `None` when `c`
/// does not occur.
pub proof fn lemma_find_char(s: Seq<char>, c: char)
    ensures
        match find_char(s, c) {
            Some(i) => 0 <= i < s.len() && s[i] == c && (forall|j: int| 0 <= j < i ==> s[j] != c),
            None => forall|j: int| 0 <= j < s.len() ==> s[j] != c,
        },
    decreases s.len(),
{
    if s.len() > 0 && s[0] != c {
        let t = s.drop_first();
        lemma_find_char(t, c);
        match find_char(t, c) {
            Some(i) => {
                assert(s[i + 1] == t[i]);
                assert forall|j: int| 0 <= j < i + 1 implies s[j] != c by {
                    if j >= 1 {
                        assert(t[j - 1] == s[j]);
                    }
                }
            },
            None => {
                assert forall|j: int| 0 <= j < s.len() implies s[j] != c by {
                    if j >= 1 {
                        assert(t[j - 1] == s[j]);
                    }
                }
            },
        }
    }
}

/// A first-occurrence witness pins `find_char` down exactly.
pub proof fn lemma_find_char_at(s: Seq<char>, c: char, i: int)
    requires
        0 <= i < s.len(),
        s[i] == c,
        forall|j: int| 0 <= j < i ==> s[j] != c,
    ensures
        find_char(s, c) == Some(i),
{
    lemma_find_char(s, c);
    match find_char(s, c) {
        Some(k) => {
            if k < i {
                assert(s[k] != c);
            } else if i < k {
                assert(s[i] != c);
            }
        },
        None => {
            assert(s[i] != c);
        },
    }
}

/// There is a `==` pair starting at index `i` of `s`.
pub open spec fn double_eq_at(s: Seq<char>, i: int) -> bool {
    &&& 0 <= i
    &&& i + 2 <= s.len()
    &&& s[i] == '='
    &&& s[i + 1] == '='
}

/// Index of the first occurrence of the substring `==` in `s`, if any.
pub open spec fn find_double_eq(s: Seq<char>) -> Option<int>
    decreases s.len(),
{
    if s.len() < 2 {
        None
    } else if s[0] == '=' && s[1] == '=' {
        Some(0int)
    } else {
        match find_double_eq(s.drop_first()) {
            Some(i) => Some(i + 1),
            None => None,
        }
    }
}

/// `find_double_eq` returns the least index where `==` starts, or `None`
/// when the substring does not occur.
pub proof fn lemma_find_double_eq(s: Seq<char>)
    ensures
        match find_double_eq(s) {
            Some(i) => double_eq_at(s, i) && (forall|j: int| 0 <= j < i ==> !double_eq_at(s, j)),
            None => forall|j: int| !double_eq_at(s, j),
        },
    decreases s.len(),
{
    if s.len() >= 2 && !(s[0] == '=' && s[1] == '=') {
        lemma_find_double_eq(s.drop_first());
        let t = s.drop_first();
        assert forall|j: int| double_eq_at(s, j) implies j >= 1 && double_eq_at(t, j - 1) by {
            assert(t[j - 1] == s[j]);
            assert(t[j] == s[j + 1]);
        }
        match find_double_eq(t) {
            Some(i) => {
                assert(t[i] == s[i + 1]);
                assert(t[i + 1] == s[i + 2]);
                assert forall|j: int| 0 <= j < i + 1 implies !double_eq_at(s, j) by {
                    if j >= 1 {
                        assert(!double_eq_at(t, j - 1));
                    }
                }
            },
            None => {},
        }
    }
}

/// A first-occurrence witness pins `find_double_eq` down exactly.
pub proof fn lemma_find_double_eq_at(s: Seq<char>, i: int)
    requires
        double_eq_at(s, i),
        forall|j: int| 0 <= j < i ==> !double_eq_at(s, j),
    ensures
        find_double_eq(s) == Some(i),
{
    lemma_find_double_eq(s);
    match find_double_eq(s) {
        Some(k) => {
            if k < i {
                assert(!double_eq_at(s, k));
            } else if i < k {
                assert(!double_eq_at(s, i));
            }
        },
        None => {
            assert(!double_eq_at(s, i));
        },
    }
}

/// First occurrence of `c` in `s`, scanning code points left to right.
pub fn find_char_str(s: &str, c: char) -> (r: Option<usize>)
    ensures
        match r {
            Some(i) => find_char(s@, c) == Some(i as int),
            None => find_char(s@, c) is None,
        },
{
    let n = s.unicode_len();
    let mut i: usize = 0;
    while i < n
        invariant
            0 <= i <= n,
            n == s@.len(),
            forall|j: int| 0 <= j < i ==> s@[j] != c,
        decreases n - i,
    {
        if s.get_char(i) == c {
            proof {
                lemma_find_char_at(s@, c, i as int);
            }
            return Some(i);
        }
        i += 1;
    }
    proof {
        lemma_find_char(s@, c);
    }
    None
}

/// First occurrence of the substring `==` in `s`.
pub fn find_double_eq_str(s: &str) -> (r: Option<usize>)
    ensures
        match r {
            Some(i) => find_double_eq(s@) == Some(i as int) && i + 2 <= s@.len(),
            None => find_double_eq(s@) is None,
        },
{
    let n = s.unicode_len();
    if n < 2 {
        proof {
            lemma_find_double_eq(s@);
        }
        return None;
    }
    let mut i: usize = 0;
    while i + 1 < n
        invariant
            0 <= i <= n - 1,
            n >= 2,
            n == s@.len(),
            forall|j: int| 0 <= j < i ==> !double_eq_at(s@, j),
        decreases n - i,
    {
        if s.get_char(i) == '=' && s.get_char(i + 1) == '=' {
            proof {
                lemma_find_double_eq_at(s@, i as int);
            }
            return Some(i);
        }
        i += 1;
    }
    proof {
        assert forall|j: int| !double_eq_at(s@, j) by {
            if double_eq_at(s@, j) {
                assert(j + 2 <= n);
                assert(j < i);
            }
        }
        lemma_find_double_eq(s@);
    }
    None
}

} // verus!
