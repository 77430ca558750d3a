//! The response renderer: a received status/headers/body triple becomes
//! the exact text written to standard output. The status line and header
//! keys are styled only in terminal mode; a body whose content type names
//! JSON is pretty-printed and, in terminal mode, colorized; a malformed
//! JSON body falls back to the verbatim text. A trailing newline is added
//! when the displayed body does not already end in one.

use vstd::prelude::*;
use crate::cli::pairs_view;
use crate::json_color::{colorize_json, lex_from, rendered, style_reset};
use crate::method::{upper_seq, eq_upper};

verus! {

/// The protocol version tag of a response, only ever displayed.
#[derive(PartialEq, Eq, Structural, Clone, Copy, Debug)]
pub enum HttpVersion {
    Http09,
    Http10,
    Http11,
    Http2,
    Http3,
    Other,
}

/// A received HTTP response, read-only: status code and reason phrase,
/// protocol version tag, ordered header pairs, and raw body text.
#[derive(Debug)]
pub struct ResponseView {
    pub version: HttpVersion,
    pub status: u16,
    pub reason: String,
    pub headers: Vec<(String, String)>,
    pub body: String,
}

/// The display text of each version tag.
pub open spec fn version_text(v: HttpVersion) -> Seq<char> {
    match v {
        HttpVersion::Http09 => "HTTP/0.9"@,
        HttpVersion::Http10 => "HTTP/1.0"@,
        HttpVersion::Http11 => "HTTP/1.1"@,
        HttpVersion::Http2 => "HTTP/2"@,
        HttpVersion::Http3 => "HTTP/3"@,
        HttpVersion::Other => "HTTP/?"@,
    }
}

/// Display text of an HTTP version tag.
pub fn format_version(v: HttpVersion) -> (r: &'static str)
    ensures
        r@ == version_text(v),
{
    match v {
        HttpVersion::Http09 => "HTTP/0.9",
        HttpVersion::Http10 => "HTTP/1.0",
        HttpVersion::Http11 => "HTTP/1.1",
        HttpVersion::Http2 => "HTTP/2",
        HttpVersion::Http3 => "HTTP/3",
        HttpVersion::Other => "HTTP/?",
    }
}

/// The substring `json` stands at index `i` of `ct`.
pub open spec fn json_at(ct: Seq<char>, i: int) -> bool {
    &&& 0 <= i
    &&& i + 4 <= ct.len()
    &&& ct[i] == 'j'
    &&& ct[i + 1] == 's'
    &&& ct[i + 2] == 'o'
    &&& ct[i + 3] == 'n'
}

/// The content type names JSON: it contains the substring `json`.
pub open spec fn is_json_spec(ct: Seq<char>) -> bool {
    exists|i: int| json_at(ct, i)
}

/// Whether a content-type value indicates a JSON body.
pub fn is_json(content_type: &str) -> (r: bool)
    ensures
        r == is_json_spec(content_type@),
{
    let n = content_type.unicode_len();
    if n < 4 {
        proof {
            assert forall|j: int| !json_at(content_type@, j) by {
                if json_at(content_type@, j) {
                    assert(j + 4 <= n);
                }
            }
        }
        return false;
    }
    let mut i: usize = 0;
    while i <= n - 4
        invariant
            n >= 4,
            n == content_type@.len(),
            0 <= i <= n - 3,
            forall|j: int| 0 <= j < i ==> !json_at(content_type@, j),
        decreases n - i,
    {
        if content_type.get_char(i) == 'j' && content_type.get_char(i + 1) == 's'
            && content_type.get_char(i + 2) == 'o' && content_type.get_char(i + 3) == 'n' {
            proof {
                assert(json_at(content_type@, i as int));
            }
            return true;
        }
        i += 1;
    }
    proof {
        assert forall|j: int| !json_at(content_type@, j) by {
            if json_at(content_type@, j) {
                assert(j + 4 <= n);
                assert(j < i);
            }
        }
    }
    false
}

/// The named result of `jsonxf::pretty_print`: the reformatted text when
/// the crate accepts the input, nothing when it rejects it.
pub uninterp spec fn json_pretty_of(s: Seq<char>) -> Option<Seq<char>>;

/// Relies on `jsonxf::pretty_print`: a deterministic reformatting of the
/// input JSON text (two-space indent, structural newlines), a pure
/// function of its argument that fails exactly on input it deems
/// malformed.
#[verifier::external_body]
fn pretty_print_json(s: &str) -> (r: Option<String>)
    ensures
        r is Some <==> json_pretty_of(s@) is Some,
        r matches Some(p) ==> p@ == json_pretty_of(s@).unwrap(),
{
    jsonxf::pretty_print(s).ok()
}

/// The decimal digit character of `d`.
pub open spec fn digit_char(d: int) -> char {
    if d == 0 { '0' } else if d == 1 { '1' } else if d == 2 { '2' }
    else if d == 3 { '3' } else if d == 4 { '4' } else if d == 5 { '5' }
    else if d == 6 { '6' } else if d == 7 { '7' } else if d == 8 { '8' }
    else { '9' }
}

/// The decimal digits of a non-negative number, most significant first.
pub open spec fn dec_seq(n: int) -> Seq<char>
    decreases n when n >= 0
{
    if n < 10 {
        seq![digit_char(n)]
    } else {
        dec_seq(n / 10).push(digit_char(n % 10))
    }
}

fn digit_str(d: u16) -> (r: &'static str)
    requires
        d < 10,
    ensures
        r@ == seq![digit_char(d as int)],
{
    proof {
        reveal_strlit("0");
        reveal_strlit("1");
        reveal_strlit("2");
        reveal_strlit("3");
        reveal_strlit("4");
        reveal_strlit("5");
        reveal_strlit("6");
        reveal_strlit("7");
        reveal_strlit("8");
        reveal_strlit("9");
    }
    match d {
        0 => "0",
        1 => "1",
        2 => "2",
        3 => "3",
        4 => "4",
        5 => "5",
        6 => "6",
        7 => "7",
        8 => "8",
        _ => {
            proof {
                assert(d == 9);
            }
            "9"
        },
    }
}

/// Decimal digits of a status code.
pub fn u16_to_string(n: u16) -> (r: String)
    ensures
        r@ == dec_seq(n as int),
    decreases n,
{
    if n < 10 {
        String::from_str(digit_str(n))
    } else {
        let d = n % 10;
        let q = n / 10;
        let mut s = u16_to_string(q);
        s.append(digit_str(d));
        proof {
            assert(dec_seq(q as int).push(digit_char(d as int))
                =~= dec_seq(q as int) + seq![digit_char(d as int)]);
        }
        s
    }
}

/// The bold color opening the status line: green for 2xx, yellow for
/// 3xx, red otherwise.
pub open spec fn status_style(status: u16) -> Seq<char> {
    if 200 <= status <= 299 {
        "\u{1b}[1;32m"@
    } else if 300 <= status <= 399 {
        "\u{1b}[1;33m"@
    } else {
        "\u{1b}[1;31m"@
    }
}

fn status_prefix_str(status: u16) -> (r: &'static str)
    ensures
        r@ == status_style(status),
{
    if 200 <= status && status <= 299 {
        "\u{1b}[1;32m"
    } else if 300 <= status && status <= 399 {
        "\u{1b}[1;33m"
    } else {
        "\u{1b}[1;31m"
    }
}

/// The status line `<version> <code> <reason>`, styled in terminal mode.
pub open spec fn status_line_spec(v: HttpVersion, status: u16, reason: Seq<char>, tty: bool) -> Seq<char> {
    let plain = version_text(v) + " "@ + dec_seq(status as int) + " "@ + reason;
    if tty {
        status_style(status) + plain + style_reset()
    } else {
        plain
    }
}

/// One `key: value` header line, the key dimmed in terminal mode.
pub open spec fn header_line_spec(h: (Seq<char>, Seq<char>), tty: bool) -> Seq<char> {
    if tty {
        "\u{1b}[2m"@ + h.0 + style_reset() + ": "@ + h.1 + "\n"@
    } else {
        h.0 + ": "@ + h.1 + "\n"@
    }
}

/// All header lines, in order.
pub open spec fn header_lines_spec(hs: Seq<(Seq<char>, Seq<char>)>, tty: bool) -> Seq<char>
    decreases hs.len(),
{
    if hs.len() == 0 {
        Seq::empty()
    } else {
        header_lines_spec(hs.drop_last(), tty) + header_line_spec(hs.last(), tty)
    }
}

/// The key names the content-type header, in any letter case.
pub open spec fn is_content_type_key(k: Seq<char>) -> bool {
    upper_seq(k) == "CONTENT-TYPE"@
}

/// The value of the first content-type header, or empty without one.
pub open spec fn content_type_of(hs: Seq<(Seq<char>, Seq<char>)>) -> Seq<char>
    decreases hs.len(),
{
    if hs.len() == 0 {
        Seq::empty()
    } else if is_content_type_key(hs[0].0) {
        hs[0].1
    } else {
        content_type_of(hs.drop_first())
    }
}

/// The rendered body: nothing for an empty body; otherwise the body —
/// pretty-printed when the content type names JSON and the printer
/// accepts it, colorized when additionally in terminal mode — with a
/// newline appended unless the displayed text already ends in one.
pub open spec fn body_block_spec(body: Seq<char>, ct: Seq<char>, tty: bool) -> Seq<char> {
    if body.len() == 0 {
        Seq::empty()
    } else {
        let isj = is_json_spec(ct);
        let display = if isj {
            match json_pretty_of(body) {
                Some(p) => p,
                None => body,
            }
        } else {
            body
        };
        let shown = if tty && isj {
            rendered(lex_from(display, 0))
        } else {
            display
        };
        shown + (if display.len() > 0 && display[display.len() - 1] == '\n' {
            Seq::<char>::empty()
        } else {
            "\n"@
        })
    }
}

/// The whole rendered response: status line, header lines, one blank
/// line, body block.
pub open spec fn render_spec(
    v: HttpVersion,
    status: u16,
    reason: Seq<char>,
    headers: Seq<(Seq<char>, Seq<char>)>,
    body: Seq<char>,
    tty: bool,
) -> Seq<char> {
    status_line_spec(v, status, reason, tty) + "\n"@ + header_lines_spec(headers, tty) + "\n"@
        + body_block_spec(body, content_type_of(headers), tty)
}

/// Format a response for output: the exact text to write, styled only
/// when `is_tty` holds. Total; body rendering never fails.
pub fn render_response(resp: &ResponseView, is_tty: bool) -> (r: String)
    ensures
        r@ == render_spec(resp.version, resp.status, resp.reason@, pairs_view(resp.headers@),
            resp.body@, is_tty),
{
    let ghost hv = pairs_view(resp.headers@);
    let mut out = String::new();
    if is_tty {
        out.append(status_prefix_str(resp.status));
    }
    out.append(format_version(resp.version));
    out.append(" ");
    let num = u16_to_string(resp.status);
    out.append(num.as_str());
    out.append(" ");
    out.append(resp.reason.as_str());
    if is_tty {
        out.append("\u{1b}[0m");
    }
    out.append("\n");
    let ghost status_part = status_line_spec(resp.version, resp.status, resp.reason@, is_tty) + "\n"@;
    proof {
        assert(out@ =~= status_part);
    }

    let mut i: usize = 0;
    while i < resp.headers.len()
        invariant
            0 <= i <= resp.headers.len(),
            hv == pairs_view(resp.headers@),
            hv.len() == resp.headers.len(),
            out@ == status_part + header_lines_spec(hv.take(i as int), is_tty),
        decreases resp.headers.len() - i,
    {
        let ghost old_out = out@;
        if is_tty {
            out.append("\u{1b}[2m");
            out.append(resp.headers[i].0.as_str());
            out.append("\u{1b}[0m");
        } else {
            out.append(resp.headers[i].0.as_str());
        }
        out.append(": ");
        out.append(resp.headers[i].1.as_str());
        out.append("\n");
        proof {
            assert(hv[i as int] == (resp.headers@[i as int].0@, resp.headers@[i as int].1@));
            assert(hv.take(i + 1).drop_last() =~= hv.take(i as int));
            assert(hv.take(i + 1).last() == hv[i as int]);
            assert(out@ =~= old_out + header_line_spec(hv[i as int], is_tty));
            assert(out@ =~= status_part + header_lines_spec(hv.take(i + 1), is_tty));
        }
        i += 1;
    }
    proof {
        assert(hv.take(resp.headers.len() as int) =~= hv);
    }
    out.append("\n");
    let ghost head_part = status_part + header_lines_spec(hv, is_tty) + "\n"@;
    proof {
        assert(out@ =~= head_part);
    }

    let ct_idx = find_content_type(&resp.headers);
    let isj = match ct_idx {
        Some(ix) => is_json(resp.headers[ix].1.as_str()),
        None => false,
    };
    proof {
        if ct_idx is None {
            assert(content_type_of(hv) =~= Seq::<char>::empty());
            assert forall|j: int| !json_at(Seq::<char>::empty(), j) by {}
        }
        assert(isj == is_json_spec(content_type_of(hv)));
    }
    if !resp.body.as_str().is_empty() {
        let display: String = if isj {
            match pretty_print_json(resp.body.as_str()) {
                Some(p) => p,
                None => resp.body.clone(),
            }
        } else {
            resp.body.clone()
        };
        if is_tty && isj {
            let styled_body = colorize_json(display.as_str());
            out.append(styled_body.as_str());
        } else {
            out.append(display.as_str());
        }
        let dn = display.as_str().unicode_len();
        if dn == 0 || display.as_str().get_char(dn - 1) != '\n' {
            out.append("\n");
        }
        proof {
            assert(out@ =~= head_part
                + body_block_spec(resp.body@, content_type_of(hv), is_tty));
        }
    } else {
        proof {
            assert(body_block_spec(resp.body@, content_type_of(hv), is_tty)
                =~= Seq::<char>::empty());
            assert(out@ =~= head_part + body_block_spec(resp.body@, content_type_of(hv), is_tty));
        }
    }
    proof {
        assert(out@ =~= render_spec(resp.version, resp.status, resp.reason@, hv, resp.body@,
            is_tty));
    }
    out
}

/// Index of the first header whose key names the content type.
fn find_content_type(headers: &Vec<(String, String)>) -> (r: Option<usize>)
    ensures
        ({
            let hv = pairs_view(headers@);
            match r {
                Some(ix) => ix < headers@.len() && content_type_of(hv) == hv[ix as int].1,
                None => content_type_of(hv) == Seq::<char>::empty(),
            }
        }),
{
    let ghost hv = pairs_view(headers@);
    proof {
        assert(hv.skip(0) =~= hv);
    }
    let mut i: usize = 0;
    while i < headers.len()
        invariant
            0 <= i <= headers.len(),
            hv == pairs_view(headers@),
            hv.len() == headers.len(),
            content_type_of(hv) == content_type_of(hv.skip(i as int)),
        decreases headers.len() - i,
    {
        if eq_upper(headers[i].0.as_str(), "CONTENT-TYPE") {
            proof {
                assert(hv.skip(i as int)[0] == hv[i as int]);
                assert(content_type_of(hv.skip(i as int)) == hv[i as int].1);
            }
            return Some(i);
        }
        proof {
            assert(hv.skip(i as int)[0] == hv[i as int]);
            assert(hv.skip(i as int).drop_first() =~= hv.skip(i + 1));
            assert(content_type_of(hv.skip(i as int)) == content_type_of(hv.skip(i + 1)));
        }
        i += 1;
    }
    proof {
        assert(hv.skip(headers.len() as int) =~= Seq::<(Seq<char>, Seq<char>)>::empty());
    }
    None
}

} // verus!
