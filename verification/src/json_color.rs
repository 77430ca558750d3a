//! The JSON tokenizer/colorizer: a single left-to-right pass over a
//! pretty-printed JSON string, classifying each lexeme — a quoted string
//! (key or value, decided by looking ahead for a `:`), a number run, a
//! `true`/`false`/`null` literal, or a single structural character — and
//! emitting it with terminal styling. A lexer, not a parser: it knows
//! nothing of nesting or validity, and passes unrecognized text through.

use vstd::prelude::*;

verus! {

/// The classification of one lexeme.
#[derive(PartialEq, Eq, Structural, Clone, Copy, Debug)]
pub enum TokenKind {
    /// A quoted string followed (after whitespace) by a colon.
    Key,
    /// Any other quoted string.
    StringValue,
    /// A run of digits and number punctuation.
    Number,
    BooleanTrue,
    BooleanFalse,
    Null,
    /// A structural character or whitespace, passed through unstyled.
    Plain,
}

/// One lexeme: its classification and the verbatim substring it covers.
#[derive(Debug, Clone)]
pub struct ColorToken {
    pub kind: TokenKind,
    pub text: String,
}

/// An ASCII decimal digit.
pub open spec fn is_digit(c: char) -> bool {
    '0' <= c && c <= '9'
}

/// A character a number run keeps consuming: digits, `.`, `e`, `E`, `+`, `-`.
pub open spec fn is_num_char(c: char) -> bool {
    is_digit(c) || c == '.' || c == 'e' || c == 'E' || c == '+' || c == '-'
}

/// ASCII whitespace, as skipped when looking ahead for a key's colon.
pub open spec fn is_ws(c: char) -> bool {
    c == ' ' || c == '\t' || c == '\n' || c == '\u{c}' || c == '\r'
}

/// Index just past the closing quote of a string whose body starts at `i`
/// (one past the opening quote). A `\` consumes the following character
/// verbatim; an unterminated string runs to the end of the input.
pub open spec fn string_body_end(s: Seq<char>, i: int) -> int
    decreases s.len() - i when 0 <= i <= s.len()
{
    if i >= s.len() {
        s.len() as int
    } else if s[i] == '\\' {
        if i + 2 <= s.len() {
            string_body_end(s, i + 2)
        } else {
            s.len() as int
        }
    } else if s[i] == '"' {
        i + 1
    } else {
        string_body_end(s, i + 1)
    }
}

pub proof fn lemma_string_body_end(s: Seq<char>, i: int)
    requires
        0 <= i <= s.len(),
    ensures
        i <= string_body_end(s, i) <= s.len(),
    decreases s.len() - i,
{
    if i < s.len() {
        if s[i] == '\\' {
            if i + 2 <= s.len() {
                lemma_string_body_end(s, i + 2);
            }
        } else if s[i] == '"' {
        } else {
            lemma_string_body_end(s, i + 1);
        }
    }
}

/// Index just past the longest run of number characters starting at `i`.
pub open spec fn number_end(s: Seq<char>, i: int) -> int
    decreases s.len() - i when 0 <= i <= s.len()
{
    if i >= s.len() {
        i
    } else if is_num_char(s[i]) {
        number_end(s, i + 1)
    } else {
        i
    }
}

pub proof fn lemma_number_end(s: Seq<char>, i: int)
    requires
        0 <= i <= s.len(),
    ensures
        i <= number_end(s, i) <= s.len(),
    decreases s.len() - i,
{
    if i < s.len() && is_num_char(s[i]) {
        lemma_number_end(s, i + 1);
    }
}

/// Index of the first non-whitespace character at or after `i`.
pub open spec fn skip_ws(s: Seq<char>, i: int) -> int
    decreases s.len() - i when 0 <= i <= s.len()
{
    if i >= s.len() {
        i
    } else if is_ws(s[i]) {
        skip_ws(s, i + 1)
    } else {
        i
    }
}

/// The literal `true` stands at index `i`.
pub open spec fn lit_true_at(s: Seq<char>, i: int) -> bool {
    i + 4 <= s.len() && s[i] == 't' && s[i + 1] == 'r' && s[i + 2] == 'u' && s[i + 3] == 'e'
}

/// The literal `false` stands at index `i`.
pub open spec fn lit_false_at(s: Seq<char>, i: int) -> bool {
    i + 5 <= s.len() && s[i] == 'f' && s[i + 1] == 'a' && s[i + 2] == 'l' && s[i + 3] == 's'
        && s[i + 4] == 'e'
}

/// The literal `null` stands at index `i`.
pub open spec fn lit_null_at(s: Seq<char>, i: int) -> bool {
    i + 4 <= s.len() && s[i] == 'n' && s[i + 1] == 'u' && s[i + 2] == 'l' && s[i + 3] == 'l'
}

/// A number lexeme starts at index `i`: a digit, or `-` before a digit.
pub open spec fn number_starts_at(s: Seq<char>, i: int) -> bool
    recommends 0 <= i < s.len()
{
    is_digit(s[i]) || (s[i] == '-' && i + 1 < s.len() && is_digit(s[i + 1]))
}

/// Index just past the lexeme starting at `i`.
pub open spec fn lexeme_end(s: Seq<char>, i: int) -> int
    recommends 0 <= i < s.len()
{
    if s[i] == '"' {
        string_body_end(s, i + 1)
    } else if number_starts_at(s, i) {
        number_end(s, i + 1)
    } else if lit_true_at(s, i) {
        i + 4
    } else if lit_false_at(s, i) {
        i + 5
    } else if lit_null_at(s, i) {
        i + 4
    } else {
        i + 1
    }
}

/// The string starting at `i` is a key: the first non-whitespace
/// character after its closing quote is a colon.
pub open spec fn is_key_at(s: Seq<char>, i: int) -> bool
    recommends 0 <= i < s.len(), s[i] == '"'
{
    let j = skip_ws(s, string_body_end(s, i + 1));
    j < s.len() && s[j] == ':'
}

/// The classification of the lexeme starting at `i`.
pub open spec fn lexeme_kind(s: Seq<char>, i: int) -> TokenKind
    recommends 0 <= i < s.len()
{
    if s[i] == '"' {
        if is_key_at(s, i) {
            TokenKind::Key
        } else {
            TokenKind::StringValue
        }
    } else if number_starts_at(s, i) {
        TokenKind::Number
    } else if lit_true_at(s, i) {
        TokenKind::BooleanTrue
    } else if lit_false_at(s, i) {
        TokenKind::BooleanFalse
    } else if lit_null_at(s, i) {
        TokenKind::Null
    } else {
        TokenKind::Plain
    }
}

pub proof fn lemma_lexeme_end(s: Seq<char>, i: int)
    requires
        0 <= i < s.len(),
    ensures
        i < lexeme_end(s, i) <= s.len(),
{
    if s[i] == '"' {
        lemma_string_body_end(s, i + 1);
    } else if number_starts_at(s, i) {
        lemma_number_end(s, i + 1);
    }
}

/// The lexemes of `s` from position `i` on, in order, each with its
/// classification and verbatim text.
pub open spec fn lex_from(s: Seq<char>, i: int) -> Seq<(TokenKind, Seq<char>)>
    decreases s.len() - i when 0 <= i <= s.len() via lex_from_dec
{
    if i >= s.len() {
        Seq::empty()
    } else {
        seq![(lexeme_kind(s, i), s.subrange(i, lexeme_end(s, i)))] + lex_from(s, lexeme_end(s, i))
    }
}

#[via_fn]
proof fn lex_from_dec(s: Seq<char>, i: int) {
    if 0 <= i && i < s.len() {
        lemma_lexeme_end(s, i);
    }
}

/// The verbatim texts of a token list, concatenated.
pub open spec fn concat_texts(toks: Seq<(TokenKind, Seq<char>)>) -> Seq<char>
    decreases toks.len(),
{
    if toks.len() == 0 {
        Seq::empty()
    } else {
        toks[0].1 + concat_texts(toks.drop_first())
    }
}

pub proof fn lemma_lex_content(s: Seq<char>, i: int)
    requires
        0 <= i <= s.len(),
    ensures
        concat_texts(lex_from(s, i)) == s.subrange(i, s.len() as int),
    decreases s.len() - i,
{
    if i >= s.len() {
        assert(s.subrange(i, s.len() as int) =~= Seq::<char>::empty());
    } else {
        lemma_lexeme_end(s, i);
        let e = lexeme_end(s, i);
        lemma_lex_content(s, e);
        let toks = lex_from(s, i);
        assert(toks.drop_first() =~= lex_from(s, e));
        assert(toks[0].1 == s.subrange(i, e));
        assert(s.subrange(i, e) + s.subrange(e, s.len() as int) =~= s.subrange(i, s.len() as int));
    }
}

/// The tokenizer is content-preserving: concatenating the verbatim texts
/// of all lexemes reproduces the input exactly, for every input. This is
/// the statement that styling markup only ever wraps lexemes and never
/// alters, drops or reorders what stands between the markup.
pub proof fn lemma_tokens_content_preserving(s: Seq<char>)
    ensures
        concat_texts(lex_from(s, 0)) == s,
{
    lemma_lex_content(s, 0);
    assert(s.subrange(0, s.len() as int) =~= s);
}

/// Classification and text of each token of a list.
pub open spec fn tokens_view(v: Seq<ColorToken>) -> Seq<(TokenKind, Seq<char>)> {
    v.map_values(|t: ColorToken| (t.kind, t.text@))
}

fn is_digit_exec(c: char) -> (r: bool)
    ensures
        r == is_digit(c),
{
    c >= '0' && c <= '9'
}

fn is_num_char_exec(c: char) -> (r: bool)
    ensures
        r == is_num_char(c),
{
    is_digit_exec(c) || c == '.' || c == 'e' || c == 'E' || c == '+' || c == '-'
}

fn is_ws_exec(c: char) -> (r: bool)
    ensures
        r == is_ws(c),
{
    c == ' ' || c == '\t' || c == '\n' || c == '\u{c}' || c == '\r'
}

/// Split a JSON string into classified lexemes, left to right.
pub fn tokenize_json(json: &str) -> (r: Vec<ColorToken>)
    ensures
        tokens_view(r@) == lex_from(json@, 0),
{
    let ghost s = json@;
    let n = json.unicode_len();
    let mut toks: Vec<ColorToken> = Vec::new();
    let mut i: usize = 0;
    while i < n
        invariant
            0 <= i <= n,
            n == s.len(),
            s == json@,
            lex_from(s, 0) == tokens_view(toks@) + lex_from(s, i as int),
        decreases n - i,
    {
        let c = json.get_char(i);
        let e: usize;
        let kind: TokenKind;
        if c == '"' {
            let mut j = i + 1;
            let mut closed = false;
            while j < n && !closed
                invariant
                    i + 1 <= j <= n,
                    n == s.len(),
                    s == json@,
                    !closed ==> string_body_end(s, i + 1) == string_body_end(s, j as int),
                    closed ==> string_body_end(s, i + 1) == j,
                decreases n - j,
            {
                let cj = json.get_char(j);
                if cj == '\\' {
                    if n - j >= 2 {
                        proof {
                            assert(string_body_end(s, j as int) == string_body_end(s, j + 2));
                        }
                        j += 2;
                    } else {
                        proof {
                            assert(string_body_end(s, j as int) == n);
                            assert(string_body_end(s, n as int) == n);
                        }
                        j = n;
                    }
                } else if cj == '"' {
                    proof {
                        assert(string_body_end(s, j as int) == j + 1);
                    }
                    j += 1;
                    closed = true;
                } else {
                    proof {
                        assert(string_body_end(s, j as int) == string_body_end(s, j + 1));
                    }
                    j += 1;
                }
            }
            proof {
                if !closed {
                    assert(j == n);
                    assert(string_body_end(s, n as int) == n);
                }
                assert(string_body_end(s, i + 1) == j);
            }
            e = j;
            let mut k = j;
            while k < n && is_ws_exec(json.get_char(k))
                invariant
                    j <= k <= n,
                    n == s.len(),
                    s == json@,
                    skip_ws(s, j as int) == skip_ws(s, k as int),
                decreases n - k,
            {
                proof {
                    assert(skip_ws(s, k as int) == skip_ws(s, k + 1));
                }
                k += 1;
            }
            proof {
                assert(skip_ws(s, k as int) == k);
                assert(skip_ws(s, j as int) == k);
            }
            if k < n && json.get_char(k) == ':' {
                kind = TokenKind::Key;
            } else {
                kind = TokenKind::StringValue;
            }
            proof {
                assert(kind == lexeme_kind(s, i as int));
            }
        } else if is_digit_exec(c) || (c == '-' && i + 1 < n && is_digit_exec(json.get_char(i + 1))) {
            let mut j = i + 1;
            while j < n && is_num_char_exec(json.get_char(j))
                invariant
                    i + 1 <= j <= n,
                    n == s.len(),
                    s == json@,
                    number_end(s, i + 1) == number_end(s, j as int),
                decreases n - j,
            {
                proof {
                    assert(number_end(s, j as int) == number_end(s, j + 1));
                }
                j += 1;
            }
            proof {
                assert(number_end(s, j as int) == j);
            }
            e = j;
            kind = TokenKind::Number;
        } else if c == 't' && n - i >= 4 && json.get_char(i + 1) == 'r' && json.get_char(i + 2) == 'u'
            && json.get_char(i + 3) == 'e' {
            e = i + 4;
            kind = TokenKind::BooleanTrue;
        } else if c == 'f' && n - i >= 5 && json.get_char(i + 1) == 'a' && json.get_char(i + 2) == 'l'
            && json.get_char(i + 3) == 's' && json.get_char(i + 4) == 'e' {
            e = i + 5;
            kind = TokenKind::BooleanFalse;
        } else if c == 'n' && n - i >= 4 && json.get_char(i + 1) == 'u' && json.get_char(i + 2) == 'l'
            && json.get_char(i + 3) == 'l' {
            e = i + 4;
            kind = TokenKind::Null;
        } else {
            e = i + 1;
            kind = TokenKind::Plain;
        }
        proof {
            assert(lexeme_end(s, i as int) == e as int);
            assert(lexeme_kind(s, i as int) == kind);
        }
        let text = json.substring_char(i, e);
        let ghost old_toks = toks@;
        toks.push(ColorToken { kind, text: String::from_str(text) });
        proof {
            let tk = (kind, s.subrange(i as int, e as int));
            assert(lex_from(s, i as int) == seq![tk] + lex_from(s, e as int));
            assert(tokens_view(toks@) =~= tokens_view(old_toks) + seq![tk]);
            assert((tokens_view(old_toks) + seq![tk]) + lex_from(s, e as int)
                =~= tokens_view(old_toks) + (seq![tk] + lex_from(s, e as int)));
        }
        i = e;
    }
    proof {
        assert(lex_from(s, n as int) =~= Seq::<(TokenKind, Seq<char>)>::empty());
        assert(tokens_view(toks@) + lex_from(s, n as int) =~= tokens_view(toks@));
    }
    toks
}

/// The verbatim texts of a token list, concatenated back into one string.
pub fn plain_text(toks: &Vec<ColorToken>) -> (r: String)
    ensures
        r@ == concat_texts(tokens_view(toks@)),
{
    let ghost tv = tokens_view(toks@);
    let mut out = String::new();
    proof {
        assert(tv.skip(0) =~= tv);
        assert(out@ + concat_texts(tv) =~= concat_texts(tv));
    }
    let mut i: usize = 0;
    while i < toks.len()
        invariant
            0 <= i <= toks.len(),
            tv == tokens_view(toks@),
            concat_texts(tv) == out@ + concat_texts(tv.skip(i as int)),
        decreases toks.len() - i,
    {
        let ghost old_out = out@;
        out.append(toks[i].text.as_str());
        proof {
            assert(tv.skip(i as int).drop_first() =~= tv.skip(i + 1));
            assert(tv.skip(i as int)[0] == tv[i as int]);
            assert(concat_texts(tv.skip(i as int)) == tv[i as int].1 + concat_texts(tv.skip(i + 1)));
            assert((old_out + tv[i as int].1) + concat_texts(tv.skip(i + 1))
                =~= old_out + (tv[i as int].1 + concat_texts(tv.skip(i + 1))));
        }
        i += 1;
    }
    proof {
        assert(tv.skip(toks.len() as int) =~= Seq::<(TokenKind, Seq<char>)>::empty());
        assert(out@ + concat_texts(tv.skip(toks.len() as int)) =~= out@);
    }
    out
}

/// The ANSI style opening each lexeme class: bold cyan keys, green string
/// values, magenta numbers, yellow booleans, red null; none for `Plain`.
pub open spec fn style_prefix(k: TokenKind) -> Seq<char> {
    match k {
        TokenKind::Key => "\u{1b}[1;36m"@,
        TokenKind::StringValue => "\u{1b}[32m"@,
        TokenKind::Number => "\u{1b}[35m"@,
        TokenKind::BooleanTrue => "\u{1b}[33m"@,
        TokenKind::BooleanFalse => "\u{1b}[33m"@,
        TokenKind::Null => "\u{1b}[31m"@,
        TokenKind::Plain => Seq::empty(),
    }
}

/// The ANSI reset closing each styled lexeme.
pub open spec fn style_reset() -> Seq<char> {
    "\u{1b}[0m"@
}

/// One lexeme with its styling markup around it; `Plain` text is passed
/// through bare.
pub open spec fn styled_text(k: TokenKind, text: Seq<char>) -> Seq<char> {
    if k == TokenKind::Plain {
        text
    } else {
        style_prefix(k) + text + style_reset()
    }
}

/// A whole token list with styling markup applied per lexeme.
pub open spec fn rendered(toks: Seq<(TokenKind, Seq<char>)>) -> Seq<char>
    decreases toks.len(),
{
    if toks.len() == 0 {
        Seq::empty()
    } else {
        styled_text(toks[0].0, toks[0].1) + rendered(toks.drop_first())
    }
}

fn prefix_str(k: TokenKind) -> (r: &'static str)
    ensures
        r@ == style_prefix(k),
{
    match k {
        TokenKind::Key => "\u{1b}[1;36m",
        TokenKind::StringValue => "\u{1b}[32m",
        TokenKind::Number => "\u{1b}[35m",
        TokenKind::BooleanTrue => "\u{1b}[33m",
        TokenKind::BooleanFalse => "\u{1b}[33m",
        TokenKind::Null => "\u{1b}[31m",
        TokenKind::Plain => {
            proof {
                reveal_strlit("");
                assert(""@ =~= Seq::<char>::empty());
            }
            ""
        },
    }
}

/// Colorize a pretty-printed JSON string: every lexeme is emitted
/// verbatim, wrapped in the styling of its classification.
pub fn colorize_json(json: &str) -> (r: String)
    ensures
        r@ == rendered(lex_from(json@, 0)),
{
    let toks = tokenize_json(json);
    let ghost tv = tokens_view(toks@);
    let mut out = String::new();
    proof {
        assert(tv.skip(0) =~= tv);
        assert(out@ + rendered(tv) =~= rendered(tv));
    }
    let mut i: usize = 0;
    while i < toks.len()
        invariant
            0 <= i <= toks.len(),
            tv == tokens_view(toks@),
            tv == lex_from(json@, 0),
            rendered(tv) == out@ + rendered(tv.skip(i as int)),
        decreases toks.len() - i,
    {
        let ghost old_out = out@;
        let plain = toks[i].kind == TokenKind::Plain;
        if !plain {
            out.append(prefix_str(toks[i].kind));
        }
        out.append(toks[i].text.as_str());
        if !plain {
            out.append("\u{1b}[0m");
        }
        proof {
            assert(tv.skip(i as int).drop_first() =~= tv.skip(i + 1));
            assert(tv.skip(i as int)[0] == tv[i as int]);
            assert(rendered(tv.skip(i as int)) == styled_text(tv[i as int].0, tv[i as int].1)
                + rendered(tv.skip(i + 1)));
            assert(out@ =~= old_out + styled_text(tv[i as int].0, tv[i as int].1));
            assert((old_out + styled_text(tv[i as int].0, tv[i as int].1)) + rendered(tv.skip(i + 1))
                =~= old_out + (styled_text(tv[i as int].0, tv[i as int].1) + rendered(tv.skip(i + 1))));
        }
        i += 1;
    }
    proof {
        assert(tv.skip(toks.len() as int) =~= Seq::<(TokenKind, Seq<char>)>::empty());
        assert(out@ + rendered(tv.skip(toks.len() as int)) =~= out@);
    }
    out
}

/// `s` holds no raw escape character. Valid JSON text always satisfies
/// this: control characters inside strings must be written escaped.
pub open spec fn esc_free(s: Seq<char>) -> bool {
    forall|i: int| 0 <= i < s.len() ==> s[i] != '\u{1b}'
}

/// Drop everything up to and including the first `m`, the byte that
/// terminates every ANSI style sequence this crate emits.
pub open spec fn after_m(s: Seq<char>) -> Seq<char>
    decreases s.len(),
{
    if s.len() == 0 {
        s
    } else if s[0] == 'm' {
        s.drop_first()
    } else {
        after_m(s.drop_first())
    }
}

proof fn lemma_after_m_len(s: Seq<char>)
    ensures
        after_m(s).len() <= s.len(),
    decreases s.len(),
{
    if s.len() > 0 && s[0] != 'm' {
        lemma_after_m_len(s.drop_first());
    }
}

/// `s` with every ANSI style sequence removed: an escape character and
/// everything through the next `m` is dropped, all else is kept.
pub open spec fn strip_markup(s: Seq<char>) -> Seq<char>
    decreases s.len() via strip_markup_dec
{
    if s.len() == 0 {
        Seq::empty()
    } else if s[0] == '\u{1b}' {
        strip_markup(after_m(s.drop_first()))
    } else {
        seq![s[0]] + strip_markup(s.drop_first())
    }
}

#[via_fn]
proof fn strip_markup_dec(s: Seq<char>) {
    if s.len() > 0 && s[0] == '\u{1b}' {
        lemma_after_m_len(s.drop_first());
    }
}

proof fn lemma_after_m_through(p: Seq<char>, rest: Seq<char>)
    requires
        p.len() > 0,
        p.last() == 'm',
        forall|j: int| 0 <= j < p.len() - 1 ==> p[j] != 'm',
    ensures
        after_m(p + rest) == rest,
    decreases p.len(),
{
    if p.len() == 1 {
        assert((p + rest)[0] == 'm');
        assert((p + rest).drop_first() =~= rest);
    } else {
        assert((p + rest)[0] == p[0]);
        assert(p[0] != 'm');
        assert((p + rest).drop_first() =~= p.drop_first() + rest);
        assert(p.drop_first().last() == p.last());
        assert forall|j: int| 0 <= j < p.drop_first().len() - 1 implies p.drop_first()[j] != 'm' by {
            assert(p.drop_first()[j] == p[j + 1]);
        }
        lemma_after_m_through(p.drop_first(), rest);
    }
}

proof fn lemma_strip_esc_block(code: Seq<char>, rest: Seq<char>)
    requires
        code.len() >= 2,
        code[0] == '\u{1b}',
        code.last() == 'm',
        forall|j: int| 1 <= j < code.len() - 1 ==> code[j] != 'm',
    ensures
        strip_markup(code + rest) == strip_markup(rest),
{
    assert((code + rest)[0] == '\u{1b}');
    assert((code + rest).drop_first() =~= code.drop_first() + rest);
    assert(code.drop_first().last() == code.last());
    assert forall|j: int| 0 <= j < code.drop_first().len() - 1 implies code.drop_first()[j] != 'm' by {
        assert(code.drop_first()[j] == code[j + 1]);
    }
    lemma_after_m_through(code.drop_first(), rest);
}

proof fn lemma_strip_free(t: Seq<char>, rest: Seq<char>)
    requires
        esc_free(t),
    ensures
        strip_markup(t + rest) == t + strip_markup(rest),
    decreases t.len(),
{
    if t.len() == 0 {
        assert(t + rest =~= rest);
        assert(t + strip_markup(rest) =~= strip_markup(rest));
    } else {
        assert((t + rest)[0] == t[0]);
        assert(t[0] != '\u{1b}');
        assert((t + rest).drop_first() =~= t.drop_first() + rest);
        lemma_strip_free(t.drop_first(), rest);
        assert(seq![t[0]] + (t.drop_first() + strip_markup(rest)) =~= t + strip_markup(rest));
    }
}

proof fn lemma_style_prefix_shape(k: TokenKind)
    requires
        k != TokenKind::Plain,
    ensures
        ({
            let p = style_prefix(k);
            &&& p.len() >= 2
            &&& p[0] == '\u{1b}'
            &&& p.last() == 'm'
            &&& forall|j: int| 1 <= j < p.len() - 1 ==> p[j] != 'm'
        }),
{
    reveal_strlit("\u{1b}[1;36m");
    reveal_strlit("\u{1b}[32m");
    reveal_strlit("\u{1b}[35m");
    reveal_strlit("\u{1b}[33m");
    reveal_strlit("\u{1b}[31m");
}

proof fn lemma_style_reset_shape()
    ensures
        ({
            let p = style_reset();
            &&& p.len() >= 2
            &&& p[0] == '\u{1b}'
            &&& p.last() == 'm'
            &&& forall|j: int| 1 <= j < p.len() - 1 ==> p[j] != 'm'
        }),
{
    reveal_strlit("\u{1b}[0m");
}

proof fn lemma_strip_rendered(toks: Seq<(TokenKind, Seq<char>)>)
    requires
        forall|i: int| 0 <= i < toks.len() ==> esc_free(#[trigger] toks[i].1),
    ensures
        strip_markup(rendered(toks)) == concat_texts(toks),
    decreases toks.len(),
{
    if toks.len() > 0 {
        let k = toks[0].0;
        let t = toks[0].1;
        let rest = rendered(toks.drop_first());
        assert forall|i: int| 0 <= i < toks.drop_first().len()
            implies esc_free(#[trigger] toks.drop_first()[i].1) by {
            assert(toks.drop_first()[i] == toks[i + 1]);
        }
        lemma_strip_rendered(toks.drop_first());
        if k == TokenKind::Plain {
            lemma_strip_free(t, rest);
        } else {
            lemma_style_prefix_shape(k);
            lemma_style_reset_shape();
            assert((style_prefix(k) + t + style_reset()) + rest
                =~= style_prefix(k) + (t + (style_reset() + rest)));
            lemma_strip_esc_block(style_prefix(k), t + (style_reset() + rest));
            lemma_strip_free(t, style_reset() + rest);
            lemma_strip_esc_block(style_reset(), rest);
        }
    }
}

proof fn lemma_lex_texts_esc_free(s: Seq<char>, i: int)
    requires
        0 <= i <= s.len(),
        esc_free(s),
    ensures
        forall|j: int| 0 <= j < lex_from(s, i).len() ==> esc_free(#[trigger] lex_from(s, i)[j].1),
    decreases s.len() - i,
{
    if i < s.len() {
        lemma_lexeme_end(s, i);
        let e = lexeme_end(s, i);
        lemma_lex_texts_esc_free(s, e);
        let toks = lex_from(s, i);
        assert forall|j: int| 0 <= j < toks.len() implies esc_free(#[trigger] toks[j].1) by {
            if j == 0 {
                assert(toks[0].1 == s.subrange(i, e));
                assert forall|x: int| 0 <= x < s.subrange(i, e).len()
                    implies s.subrange(i, e)[x] != '\u{1b}' by {
                    assert(s.subrange(i, e)[x] == s[i + x]);
                }
            } else {
                assert(toks[j] == lex_from(s, e)[j - 1]);
            }
        }
    }
}

/// Stripping all styling markup from the colorizer's output reproduces
/// the input exactly, for every input free of a raw escape character —
/// which syntactically valid JSON text always is, since control
/// characters inside strings must be written escaped.
pub proof fn lemma_strip_colorized(s: Seq<char>)
    requires
        esc_free(s),
    ensures
        strip_markup(rendered(lex_from(s, 0))) == s,
{
    lemma_lex_texts_esc_free(s, 0);
    lemma_strip_rendered(lex_from(s, 0));
    lemma_tokens_content_preserving(s);
}

/// Remove every ANSI style sequence: an escape character and everything
/// through the next `m` is dropped, all else is kept verbatim.
pub fn strip_styles(s: &str) -> (r: String)
    ensures
        r@ == strip_markup(s@),
{
    let n = s.unicode_len();
    let mut out = String::new();
    proof {
        assert(s@.skip(0) =~= s@);
        assert(out@ + strip_markup(s@) =~= strip_markup(s@));
    }
    let mut i: usize = 0;
    while i < n
        invariant
            0 <= i <= n,
            n == s@.len(),
            strip_markup(s@) == out@ + strip_markup(s@.skip(i as int)),
        decreases n - i,
    {
        let c = s.get_char(i);
        if c == '\u{1b}' {
            let mut j = i + 1;
            while j < n && s.get_char(j) != 'm'
                invariant
                    i + 1 <= j <= n,
                    n == s@.len(),
                    after_m(s@.skip(i + 1)) == after_m(s@.skip(j as int)),
                decreases n - j,
            {
                proof {
                    assert(s@.skip(j as int)[0] == s@[j as int]);
                    assert(s@.skip(j as int).drop_first() =~= s@.skip(j + 1));
                    assert(after_m(s@.skip(j as int)) == after_m(s@.skip(j + 1)));
                }
                j += 1;
            }
            proof {
                assert(s@.skip(i as int)[0] == '\u{1b}');
                assert(s@.skip(i as int).drop_first() =~= s@.skip(i + 1));
                if j < n {
                    assert(s@.skip(j as int)[0] == 'm');
                    assert(s@.skip(j as int).drop_first() =~= s@.skip(j + 1));
                    assert(after_m(s@.skip(j as int)) == s@.skip(j + 1));
                } else {
                    assert(s@.skip(j as int) =~= Seq::<char>::empty());
                }
            }
            if j < n {
                i = j + 1;
            } else {
                i = j;
            }
        } else {
            let ghost old_out = out@;
            out.append(s.substring_char(i, i + 1));
            proof {
                assert(s@.skip(i as int)[0] == s@[i as int]);
                assert(s@.skip(i as int).drop_first() =~= s@.skip(i + 1));
                assert(strip_markup(s@.skip(i as int))
                    == seq![s@[i as int]] + strip_markup(s@.skip(i + 1)));
                assert(s@.subrange(i as int, i + 1) =~= seq![s@[i as int]]);
                assert((old_out + seq![s@[i as int]]) + strip_markup(s@.skip(i + 1))
                    =~= old_out + (seq![s@[i as int]] + strip_markup(s@.skip(i + 1))));
            }
            i += 1;
        }
    }
    proof {
        assert(s@.skip(n as int) =~= Seq::<char>::empty());
        assert(out@ + strip_markup(s@.skip(n as int)) =~= out@);
    }
    out
}

} // verus!
