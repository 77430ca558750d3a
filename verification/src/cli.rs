//! The request assembler: the ordered token list becomes one immutable
//! request descriptor. The first token is taken as the method only when a
//! second token exists and it names a known verb; the next token is the
//! URL; every remaining token is classified as a header, body field or
//! query parameter, keeping the original relative order within each list.

use vstd::prelude::*;
use crate::error::HttpieError;
use crate::item::{RequestItem, ItemKind, classify_spec, item_matches, parse_item};
use crate::method::{Method, is_method, is_method_spec, method_of, inferred_method, resolve_method};
use crate::url::{normalize_url, normalized_url_spec};

verus! {

/// The raw command-line tokens, in order: `[METHOD] URL [REQUEST_ITEMS...]`.
#[derive(Debug)]
pub struct Args {
    pub raw_args: Vec<String>,
}

/// A parsed and validated HTTP request, ready to hand to a transport:
/// resolved method, schemed URL, ordered header and query-parameter pairs
/// (duplicates allowed), and the JSON body fields in token order, of which
/// `body_map` is the last-write-wins mapping.
#[derive(Debug)]
pub struct ParsedRequest {
    pub method: Method,
    pub url: String,
    pub headers: Vec<(String, String)>,
    pub body: Option<Vec<(String, String)>>,
    pub query_params: Vec<(String, String)>,
}

/// Character sequences of a list of tokens.
pub open spec fn token_views(ts: Seq<String>) -> Seq<Seq<char>> {
    ts.map_values(|s: String| s@)
}

/// Character sequences of a list of string pairs.
pub open spec fn pairs_view(v: Seq<(String, String)>) -> Seq<(Seq<char>, Seq<char>)> {
    v.map_values(|p: (String, String)| (p.0@, p.1@))
}

/// The explicit method token, when the first token is one.
pub open spec fn split_method(ts: Seq<Seq<char>>) -> Option<Seq<char>> {
    if ts.len() >= 2 && is_method_spec(ts[0]) {
        Some(ts[0])
    } else {
        None
    }
}

/// The URL token: the second token after an explicit method, else the first.
pub open spec fn split_url(ts: Seq<Seq<char>>) -> Seq<char>
    recommends
        ts.len() > 0,
{
    if ts.len() >= 2 && is_method_spec(ts[0]) {
        ts[1]
    } else {
        ts[0]
    }
}

/// The item tokens: everything after the method and URL tokens.
pub open spec fn split_items(ts: Seq<Seq<char>>) -> Seq<Seq<char>> {
    if ts.len() >= 2 && is_method_spec(ts[0]) {
        ts.skip(2)
    } else {
        ts.skip(1)
    }
}

/// The key/value pairs of the items of one kind, in token order.
pub open spec fn filtered(items: Seq<Seq<char>>, k: ItemKind) -> Seq<(Seq<char>, Seq<char>)>
    decreases items.len(),
{
    if items.len() == 0 {
        Seq::empty()
    } else {
        let rest = filtered(items.drop_last(), k);
        match classify_spec(items.last()) {
            Some((kind, key, value)) => if kind == k {
                rest.push((key, value))
            } else {
                rest
            },
            None => rest,
        }
    }
}

/// Every item token classifies to some request item.
pub open spec fn all_items_ok(items: Seq<Seq<char>>) -> bool {
    forall|i: int| 0 <= i < items.len() ==> classify_spec(items[i]) is Some
}

/// Fold an ordered pair list into a map, later pairs overriding earlier.
pub open spec fn pairs_to_map(ps: Seq<(Seq<char>, Seq<char>)>) -> Map<Seq<char>, Seq<char>>
    decreases ps.len(),
{
    if ps.len() == 0 {
        Map::empty()
    } else {
        pairs_to_map(ps.drop_last()).insert(ps.last().0, ps.last().1)
    }
}

impl ParsedRequest {
    /// The JSON object body as a mapping, last write winning on a
    /// duplicated key; empty when there are no body fields.
    pub open spec fn body_map(self) -> Map<Seq<char>, Seq<char>> {
        match self.body {
            Some(b) => pairs_to_map(pairs_view(b@)),
            None => Map::empty(),
        }
    }
}

/// A descriptor assembled correctly from the token list `ts`.
pub open spec fn parse_ok(p: ParsedRequest, ts: Seq<Seq<char>>) -> bool {
    let items = split_items(ts);
    &&& p.url@ == normalized_url_spec(split_url(ts))
    &&& pairs_view(p.headers@) == filtered(items, ItemKind::Header)
    &&& pairs_view(p.query_params@) == filtered(items, ItemKind::QueryParam)
    &&& (match p.body {
        Some(b) => filtered(items, ItemKind::DataField).len() > 0 && pairs_view(b@)
            == filtered(items, ItemKind::DataField),
        None => filtered(items, ItemKind::DataField).len() == 0,
    })
    &&& p.body_map() == pairs_to_map(filtered(items, ItemKind::DataField))
    &&& (match split_method(ts) {
        Some(mt) => p.method == method_of(mt).unwrap(),
        None => p.method == inferred_method(filtered(items, ItemKind::DataField).len() > 0),
    })
}

/// One more item extends the per-kind folds by at most one pair.
proof fn lemma_filtered_snoc(items: Seq<Seq<char>>, k: int, kind: ItemKind)
    requires
        0 <= k < items.len(),
    ensures
        filtered(items.take(k + 1), kind) == (match classify_spec(items[k]) {
            Some((kk, key, value)) => if kk == kind {
                filtered(items.take(k), kind).push((key, value))
            } else {
                filtered(items.take(k), kind)
            },
            None => filtered(items.take(k), kind),
        }),
{
    assert(items.take(k + 1).drop_last() =~= items.take(k));
    assert(items.take(k + 1).last() == items[k]);
}

/// Assemble a request descriptor from the raw token list.
///
/// Fails with `MissingUrl` on an empty list, and with the classification
/// error of the first unclassifiable item token otherwise; succeeds
/// exactly when neither happens.
pub fn parse(raw: &Vec<String>) -> (r: Result<ParsedRequest, HttpieError>)
    ensures
        ({
            let ts = token_views(raw@);
            let items = split_items(ts);
            &&& (r is Ok <==> raw@.len() > 0 && all_items_ok(items))
            &&& (raw@.len() == 0 ==> (r matches Err(e) && e matches HttpieError::MissingUrl))
            &&& (raw@.len() > 0 && all_items_ok(items) ==> (r matches Ok(p) && parse_ok(p, ts)))
            &&& (raw@.len() > 0 && !all_items_ok(items) ==> (r matches Err(e)
                && e matches HttpieError::Classification(t)
                && (exists|i: int| 0 <= i < items.len()
                    && classify_spec(items[i]) is None
                    && (forall|j: int| 0 <= j < i ==> classify_spec(items[j]) is Some)
                    && t@ == items[i])))
        }),
{
    let ghost ts = token_views(raw@);
    if raw.len() == 0 {
        return Err(HttpieError::MissingUrl);
    }
    let explicit: bool = raw.len() >= 2 && is_method(raw[0].as_str());
    let url_idx: usize = if explicit { 1 } else { 0 };
    let start: usize = if explicit { 2 } else { 1 };
    let ghost items = split_items(ts);
    proof {
        assert(ts[0] == raw@[0]@);
        assert(items =~= ts.skip(start as int));
        assert(items.len() == ts.len() - start);
    }

    let mut headers: Vec<(String, String)> = Vec::new();
    let mut data: Vec<(String, String)> = Vec::new();
    let mut query: Vec<(String, String)> = Vec::new();
    let mut i: usize = start;
    while i < raw.len()
        invariant
            start <= i <= raw.len(),
            start <= 2,
            ts == token_views(raw@),
            items == split_items(ts),
            items == ts.skip(start as int),
            items.len() == raw.len() - start,
            forall|j: int| 0 <= j < i - start ==> classify_spec(items[j]) is Some,
            pairs_view(headers@) == filtered(items.take(i - start), ItemKind::Header),
            pairs_view(data@) == filtered(items.take(i - start), ItemKind::DataField),
            pairs_view(query@) == filtered(items.take(i - start), ItemKind::QueryParam),
        decreases raw.len() - i,
    {
        let ghost k = i - start;
        proof {
            assert(items[k] == ts[i as int]);
            assert(ts[i as int] == raw@[i as int]@);
        }
        match parse_item(raw[i].as_str()) {
            Ok(it) => {
                proof {
                    assert(item_matches(it, items[k]));
                    lemma_filtered_snoc(items, k, ItemKind::Header);
                    lemma_filtered_snoc(items, k, ItemKind::DataField);
                    lemma_filtered_snoc(items, k, ItemKind::QueryParam);
                }
                let ghost old_headers = headers@;
                let ghost old_data = data@;
                let ghost old_query = query@;
                match it {
                    RequestItem::Header(hk, hv) => headers.push((hk, hv)),
                    RequestItem::DataField(dk, dv) => data.push((dk, dv)),
                    RequestItem::QueryParam(qk, qv) => query.push((qk, qv)),
                }
                proof {
                    assert(pairs_view(headers@) =~= filtered(items.take(k + 1), ItemKind::Header));
                    assert(pairs_view(data@) =~= filtered(items.take(k + 1), ItemKind::DataField));
                    assert(pairs_view(query@) =~= filtered(items.take(k + 1), ItemKind::QueryParam));
                }
            },
            Err(e) => {
                proof {
                    assert(classify_spec(items[k]) is None);
                }
                return Err(e);
            },
        }
        i += 1;
    }
    proof {
        assert(items.take(raw.len() - start) =~= items);
    }

    let has_data = data.len() > 0;
    proof {
        assert(pairs_view(data@).len() == data@.len());
    }
    let method = if explicit {
        match resolve_method(Some(&raw[0]), has_data) {
            Ok(m) => m,
            // proved unreachable: the first token passed `is_method`
            Err(e) => {
                proof {
                    assert(false);
                }
                return Err(e);
            },
        }
    } else {
        match resolve_method(None, has_data) {
            Ok(m) => m,
            // proved unreachable: inference never fails
            Err(e) => {
                proof {
                    assert(false);
                }
                return Err(e);
            },
        }
    };
    let url = normalize_url(raw[url_idx].as_str());
    let body = if has_data { Some(data) } else { None };
    Ok(ParsedRequest { method, url, headers, body, query_params: query })
}

} // verus!
