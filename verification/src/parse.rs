//! The URL round-tripper's reversing half: parse a previously-built
//! `base?key=value&key=value` URL back into the parameter map that produced
//! it.
//!
//! The wire shape is deliberately narrow: no percent-escaping, no repeated
//! keys, no fragments.  A key is everything before the first `=` of an
//! item, a value everything between the first and second `=` (characters
//! after a second `=` are discarded by the split); an item without `=`, a
//! missing or mismatched base path, and a missing query section are all
//! rejected as [`Error::BadUrl`], fail-fast: one malformed item invalidates
//! the whole URL.
use vstd::prelude::*;
use vstd::string::StrSliceExecFns;

use crate::Error;
use crate::params::{fold_params, params_map, ParamMap};
use crate::split::{
    find_from, lemma_split_first_at, lemma_split_first_none, lemma_split_on_append,
    lemma_split_on_no_sep, split_first, split_on, split_str, str_eq,
};

verus! {

/// One `key=value` item, or `None` when the `=` is missing.
pub open spec fn parse_item(item: Seq<char>) -> Option<(Seq<char>, Seq<char>)> {
    let segs = split_on(item, '=');
    if segs.len() >= 2 {
        Some((segs[0], segs[1]))
    } else {
        None
    }
}

/// Fold the items into `acc` front to back (a later item for a key already
/// seen overwrites it), failing if any item is malformed.
pub open spec fn parse_items(
    items: Seq<Seq<char>>,
    acc: Map<Seq<char>, Seq<char>>,
) -> Option<Map<Seq<char>, Seq<char>>>
    decreases items.len(),
{
    if items.len() == 0 {
        Some(acc)
    } else {
        match parse_item(items[0]) {
            None => None,
            Some(kv) => parse_items(items.drop_first(), acc.insert(kv.0, kv.1)),
        }
    }
}

/// The parameter map described by a query string, if it is well formed.
pub open spec fn parse_query(query: Seq<char>) -> Option<Map<Seq<char>, Seq<char>>> {
    parse_items(split_on(query, '&'), Map::empty())
}

/// What `parse_url` returns: the query's parameter map when the URL has a
/// `?`, the part before it is exactly `base`, and every item of the part
/// after it is well formed; `None` otherwise.
pub open spec fn spec_parse_url(base: Seq<char>, full: Seq<char>) -> Option<
    Map<Seq<char>, Seq<char>>,
> {
    match split_first(full, '?') {
        None => None,
        Some(pq) => if pq.0 != base {
            None
        } else {
            parse_query(pq.1)
        },
    }
}

/// Reconstruct the parameter map a previously-built URL was issued with,
/// checking that its path part is exactly the expected base path.
pub fn parse_url(base: &str, full: &str) -> (r: Result<ParamMap, Error>)
    ensures
        match r {
            Ok(p) => spec_parse_url(base@, full@) == Some(p@),
            Err(e) => spec_parse_url(base@, full@) is None && e == Error::BadUrl,
        },
{
    let n = full.unicode_len();
    let q_pos = match find_from(full, '?', 0) {
        None => {
            proof {
                lemma_split_first_none(full@, '?');
            }
            return Err(Error::BadUrl);
        },
        Some(i) => i,
    };
    proof {
        lemma_split_first_at(full@, '?', q_pos as int);
    }
    let path = full.substring_char(0, q_pos);
    if !str_eq(path, base) {
        return Err(Error::BadUrl);
    }
    let query = full.substring_char(q_pos + 1, n);
    let items = split_str(query, '&');
    let ghost items_dv = items.deep_view();
    let mut map = ParamMap::new();
    let mut idx: usize = 0;
    proof {
        assert(items_dv.skip(0) =~~= items_dv);
    }
    while idx < items.len()
        invariant
            idx <= items.len(),
            items.deep_view() == items_dv,
            spec_parse_url(base@, full@) == parse_items(items_dv, Map::empty()),
            parse_items(items_dv, Map::empty()) == parse_items(items_dv.skip(idx as int), map@),
        decreases items.len() - idx,
    {
        let ghost rest = items_dv.skip(idx as int);
        proof {
            assert(rest[0] == items_dv[idx as int]);
            assert(rest.drop_first() =~~= items_dv.skip(idx as int + 1));
        }
        let segs = split_str(items[idx].as_str(), '=');
        if segs.len() < 2 {
            proof {
                assert(segs.deep_view().len() < 2);
                assert(parse_item(rest[0]) is None);
                assert(parse_items(rest, map@) is None);
            }
            return Err(Error::BadUrl);
        }
        proof {
            assert(segs.deep_view()[0] == segs@[0]@);
            assert(segs.deep_view()[1] == segs@[1]@);
            assert(parse_item(rest[0]) == Some((segs@[0]@, segs@[1]@)));
        }
        map.add_param(segs[0].as_str(), segs[1].as_str());
        idx = idx + 1;
    }
    proof {
        assert(items_dv.skip(items_dv.len() as int) =~~= Seq::<Seq<char>>::empty());
    }
    Ok(map)
}

/// A plain token of the wire format: free of both separators.
pub open spec fn token_ok(t: Seq<char>) -> bool {
    forall|j: int| 0 <= j < t.len() ==> t[j] != '&' && t[j] != '='
}

/// Every key and value is a plain token.
pub open spec fn entries_ok(entries: Seq<(Seq<char>, Seq<char>)>) -> bool {
    forall|i: int| 0 <= i < entries.len() ==> token_ok(entries[i].0) && token_ok(entries[i].1)
}

/// Every key and value of the map is a plain token.
pub open spec fn map_tokens_ok(m: Map<Seq<char>, Seq<char>>) -> bool {
    forall|k: Seq<char>| m.dom().contains(k) ==> token_ok(k) && token_ok(m[k])
}

/// One `key=value` item of the encoded form.
pub open spec fn encode_entry(e: (Seq<char>, Seq<char>)) -> Seq<char> {
    e.0 + seq!['='] + e.1
}

/// The entries encoded in order, joined with `&`.
pub open spec fn encode_entries(entries: Seq<(Seq<char>, Seq<char>)>) -> Seq<char>
    decreases entries.len(),
{
    if entries.len() == 0 {
        Seq::empty()
    } else if entries.len() == 1 {
        encode_entry(entries[0])
    } else {
        encode_entry(entries[0]) + seq!['&'] + encode_entries(entries.drop_first())
    }
}

/// Encoding one more entry at the end appends `&key=value` (just
/// `key=value` to an empty encoding).
pub proof fn lemma_encode_entries_push(
    entries: Seq<(Seq<char>, Seq<char>)>,
    e: (Seq<char>, Seq<char>),
)
    ensures
        encode_entries(entries.push(e)) == if entries.len() == 0 {
            encode_entry(e)
        } else {
            encode_entries(entries) + seq!['&'] + encode_entry(e)
        },
    decreases entries.len(),
{
    let pushed = entries.push(e);
    if entries.len() == 0 {
        assert(pushed[0] == e);
    } else if entries.len() == 1 {
        assert(pushed[0] == entries[0]);
        assert(pushed.drop_first() =~= seq![e]);
        assert(seq![e][0] == e);
        assert(encode_entries(seq![e]) == encode_entry(e));
    } else {
        assert(pushed[0] == entries[0]);
        assert(pushed.drop_first() =~= entries.drop_first().push(e));
        lemma_encode_entries_push(entries.drop_first(), e);
        assert(encode_entry(entries[0]) + seq!['&'] + (encode_entries(entries.drop_first())
            + seq!['&'] + encode_entry(e)) =~= (encode_entry(entries[0]) + seq!['&']
            + encode_entries(entries.drop_first())) + seq!['&'] + encode_entry(e));
    }
}

proof fn lemma_parse_entry(e: (Seq<char>, Seq<char>))
    requires
        token_ok(e.0),
        token_ok(e.1),
    ensures
        parse_item(encode_entry(e)) == Some(e),
        forall|j: int| 0 <= j < encode_entry(e).len() ==> encode_entry(e)[j] != '&',
{
    let item = encode_entry(e);
    lemma_split_on_append(e.0, '=', e.1);
    lemma_split_on_no_sep(e.1, '=');
    assert(split_on(item, '=') == seq![e.0] + seq![e.1]);
    assert((seq![e.0] + seq![e.1])[0] == e.0);
    assert((seq![e.0] + seq![e.1])[1] == e.1);
    assert forall|j: int| 0 <= j < item.len() implies item[j] != '&' by {
        if j < e.0.len() {
            assert(item[j] == e.0[j]);
        } else if j == e.0.len() {
            assert(item[j] == '=');
        } else {
            assert(item[j] == e.1[j - e.0.len() - 1]);
        }
    }
}

proof fn lemma_parse_encode(entries: Seq<(Seq<char>, Seq<char>)>, acc: Map<Seq<char>, Seq<char>>)
    requires
        entries.len() >= 1,
        entries_ok(entries),
    ensures
        parse_items(split_on(encode_entries(entries), '&'), acc) == Some(
            fold_params(entries, acc),
        ),
    decreases entries.len(),
{
    let e0 = entries[0];
    let item0 = encode_entry(e0);
    lemma_parse_entry(e0);
    if entries.len() == 1 {
        lemma_split_on_no_sep(item0, '&');
        assert(split_on(encode_entries(entries), '&') == seq![item0]);
        assert(seq![item0][0] == item0);
        assert(seq![item0].drop_first() =~~= Seq::<Seq<char>>::empty());
        assert(entries.drop_first() =~= Seq::<(Seq<char>, Seq<char>)>::empty());
        assert(parse_items(Seq::<Seq<char>>::empty(), acc.insert(e0.0, e0.1)) == Some(
            acc.insert(e0.0, e0.1),
        ));
        assert(parse_items(seq![item0], acc) == parse_items(
            seq![item0].drop_first(),
            acc.insert(e0.0, e0.1),
        ));
        assert(fold_params(Seq::<(Seq<char>, Seq<char>)>::empty(), acc.insert(e0.0, e0.1))
            == acc.insert(e0.0, e0.1));
        assert(fold_params(entries, acc) == fold_params(
            entries.drop_first(),
            acc.insert(e0.0, e0.1),
        ));
    } else {
        let tail = entries.drop_first();
        assert(forall|i: int|
            0 <= i < tail.len() ==> tail[i] == entries[i + 1] && token_ok(tail[i].0) && token_ok(
                tail[i].1,
            ));
        let rest = encode_entries(tail);
        lemma_split_on_append(item0, '&', rest);
        let items = split_on(encode_entries(entries), '&');
        assert(items == seq![item0] + split_on(rest, '&'));
        assert(items[0] == item0);
        assert(items.drop_first() =~~= split_on(rest, '&'));
        lemma_parse_encode(tail, acc.insert(e0.0, e0.1));
    }
}

/// Law: re-encoding after a parse round-trips.  A parsed parameter map,
/// written back out as `key=value&key=value` with its entries in any order
/// (any sequence of plain-token entries with no duplicate keys), parses
/// back to exactly the same map.
pub proof fn lemma_parse_round_trip(entries: Seq<(Seq<char>, Seq<char>)>)
    requires
        entries.len() >= 1,
        entries_ok(entries),
    ensures
        parse_query(encode_entries(entries)) == Some(params_map(entries)),
{
    lemma_parse_encode(entries, Map::empty());
}

/// Law: the full replay round trip.  Writing any well-formed non-empty set
/// of parameters (in any order) after a `?`-free base path parses back, as
/// a URL, to exactly that parameter set.
pub proof fn lemma_parse_url_round_trip(base: Seq<char>, entries: Seq<(Seq<char>, Seq<char>)>)
    requires
        forall|j: int| 0 <= j < base.len() ==> base[j] != '?',
        entries.len() >= 1,
        entries_ok(entries),
    ensures
        spec_parse_url(base, base + seq!['?'] + encode_entries(entries)) == Some(
            params_map(entries),
        ),
{
    let full = base + seq!['?'] + encode_entries(entries);
    let i = base.len() as int;
    assert(full[i] == '?');
    assert(forall|j: int| 0 <= j < i ==> full[j] == base[j] && full[j] != '?');
    lemma_split_first_at(full, '?', i);
    assert(full.subrange(0, i) =~= base);
    assert(full.subrange(i + 1, full.len() as int) =~= encode_entries(entries));
    lemma_parse_round_trip(entries);
}

proof fn lemma_parse_items_bad(items: Seq<Seq<char>>, acc: Map<Seq<char>, Seq<char>>, i: int)
    requires
        0 <= i < items.len(),
        parse_item(items[i]) is None,
    ensures
        parse_items(items, acc) is None,
    decreases items.len(),
{
    if parse_item(items[0]) is Some {
        assert(i != 0);
        assert(items.drop_first()[i - 1] == items[i]);
        let kv = parse_item(items[0])->0;
        lemma_parse_items_bad(items.drop_first(), acc.insert(kv.0, kv.1), i - 1);
    }
}

/// Law: fail-fast parsing.  A single item without `=` invalidates the whole
/// query, however well formed the other items are.
pub proof fn lemma_bad_item_fails_parse(query: Seq<char>, i: int)
    requires
        0 <= i < split_on(query, '&').len(),
        parse_item(split_on(query, '&')[i]) is None,
    ensures
        parse_query(query) is None,
{
    lemma_parse_items_bad(split_on(query, '&'), Map::empty(), i);
}

} // verus!
