//! The query-parameter collection.
//!
//! A `ParamMap` is a string-keyed collection of parameter values with an
//! "add or overwrite" insertion rule: keys are unique and a later insertion
//! for an existing key replaces the prior value.  Its abstract value is the
//! finite map obtained by folding the entries front to back, inserting each
//! in turn, so the contracts of every method speak the language of
//! `vstd`'s `Map`.
use vstd::prelude::*;
use vstd::string::StringExecFns;

use crate::parse::{
    encode_entries, entries_ok, lemma_encode_entries_push, lemma_parse_round_trip, map_tokens_ok,
    parse_query,
};
use crate::split::str_eq;

verus! {

/// Insert the entries into `acc` front to back; a later entry for a key
/// already seen wins.
pub open spec fn fold_params(
    entries: Seq<(Seq<char>, Seq<char>)>,
    acc: Map<Seq<char>, Seq<char>>,
) -> Map<Seq<char>, Seq<char>>
    decreases entries.len(),
{
    if entries.len() == 0 {
        acc
    } else {
        fold_params(entries.drop_first(), acc.insert(entries[0].0, entries[0].1))
    }
}

/// The map described by a sequence of key/value entries.
pub open spec fn params_map(entries: Seq<(Seq<char>, Seq<char>)>) -> Map<Seq<char>, Seq<char>> {
    fold_params(entries, Map::empty())
}

/// No two entries share a key.
pub open spec fn unique_keys(entries: Seq<(Seq<char>, Seq<char>)>) -> bool {
    forall|i: int, j: int| 0 <= i < j < entries.len() ==> entries[i].0 != entries[j].0
}

/// An insertion whose key is not among the entries commutes with the fold.
pub proof fn lemma_fold_insert_commute(
    entries: Seq<(Seq<char>, Seq<char>)>,
    acc: Map<Seq<char>, Seq<char>>,
    k: Seq<char>,
    v: Seq<char>,
)
    requires
        forall|i: int| 0 <= i < entries.len() ==> entries[i].0 != k,
    ensures
        fold_params(entries, acc.insert(k, v)) == fold_params(entries, acc).insert(k, v),
    decreases entries.len(),
{
    if entries.len() != 0 {
        let e0 = entries[0];
        assert(e0.0 != k);
        assert(acc.insert(k, v).insert(e0.0, e0.1) =~= acc.insert(e0.0, e0.1).insert(k, v));
        assert(forall|i: int|
            0 <= i < entries.drop_first().len() ==> entries.drop_first()[i] == entries[i + 1]
                && entries.drop_first()[i].0 != k);
        lemma_fold_insert_commute(entries.drop_first(), acc.insert(e0.0, e0.1), k, v);
    }
}

/// Appending an entry at the end inserts its key last, so it wins.
pub proof fn lemma_fold_push(
    entries: Seq<(Seq<char>, Seq<char>)>,
    acc: Map<Seq<char>, Seq<char>>,
    k: Seq<char>,
    v: Seq<char>,
)
    ensures
        fold_params(entries.push((k, v)), acc) == fold_params(entries, acc).insert(k, v),
    decreases entries.len(),
{
    let pushed = entries.push((k, v));
    if entries.len() == 0 {
        assert(pushed[0] == (k, v));
        assert(pushed.drop_first() =~= Seq::<(Seq<char>, Seq<char>)>::empty());
        assert(fold_params(pushed, acc) == fold_params(pushed.drop_first(), acc.insert(k, v)));
        assert(fold_params(pushed.drop_first(), acc.insert(k, v)) == acc.insert(k, v));
        assert(fold_params(entries, acc) == acc);
    } else {
        assert(pushed[0] == entries[0]);
        assert(pushed.drop_first() =~= entries.drop_first().push((k, v)));
        lemma_fold_push(entries.drop_first(), acc.insert(entries[0].0, entries[0].1), k, v);
    }
}

/// Overwriting the value of the (unique) entry for a key is the same as
/// inserting the new value into the folded map.
pub proof fn lemma_fold_update(
    entries: Seq<(Seq<char>, Seq<char>)>,
    acc: Map<Seq<char>, Seq<char>>,
    i: int,
    v: Seq<char>,
)
    requires
        unique_keys(entries),
        0 <= i < entries.len(),
    ensures
        fold_params(entries.update(i, (entries[i].0, v)), acc) == fold_params(
            entries,
            acc,
        ).insert(entries[i].0, v),
    decreases entries.len(),
{
    let k = entries[i].0;
    let updated = entries.update(i, (k, v));
    if i == 0 {
        assert(updated[0] == (k, v));
        assert(updated.drop_first() =~= entries.drop_first());
        assert(forall|j: int|
            0 <= j < entries.drop_first().len() ==> entries.drop_first()[j] == entries[j + 1]
                && entries.drop_first()[j].0 != k);
        lemma_fold_insert_commute(entries.drop_first(), acc, k, v);
        lemma_fold_insert_commute(entries.drop_first(), acc, k, entries[0].1);
        assert(fold_params(entries.drop_first(), acc).insert(k, entries[0].1).insert(k, v)
            =~= fold_params(entries.drop_first(), acc).insert(k, v));
    } else {
        assert(updated[0] == entries[0]);
        let tail = entries.drop_first();
        assert(forall|a: int, b: int|
            0 <= a < b < tail.len() ==> tail[a] == entries[a + 1] && tail[b] == entries[b + 1]
                && tail[a].0 != tail[b].0);
        assert(updated.drop_first() =~= tail.update(i - 1, (tail[i - 1].0, v)));
        assert(tail[i - 1] == entries[i]);
        lemma_fold_update(tail, acc.insert(entries[0].0, entries[0].1), i - 1, v);
    }
}

/// A key is in the folded map exactly when it is in `acc` or among the
/// entries.
pub proof fn lemma_fold_contains(
    entries: Seq<(Seq<char>, Seq<char>)>,
    acc: Map<Seq<char>, Seq<char>>,
    k: Seq<char>,
)
    ensures
        fold_params(entries, acc).dom().contains(k) <==> (acc.dom().contains(k) || exists|i: int|
            0 <= i < entries.len() && entries[i].0 == k),
    decreases entries.len(),
{
    if entries.len() != 0 {
        let acc2 = acc.insert(entries[0].0, entries[0].1);
        lemma_fold_contains(entries.drop_first(), acc2, k);
        if fold_params(entries, acc).dom().contains(k) {
            if acc2.dom().contains(k) {
                if !acc.dom().contains(k) {
                    assert(entries[0].0 == k);
                }
            } else {
                let j = choose|j: int|
                    0 <= j < entries.drop_first().len() && entries.drop_first()[j].0 == k;
                assert(entries[j + 1].0 == k);
            }
        }
        if exists|i: int| 0 <= i < entries.len() && entries[i].0 == k {
            let i = choose|i: int| 0 <= i < entries.len() && entries[i].0 == k;
            if i == 0 {
                assert(acc2.dom().contains(k));
            } else {
                assert(entries.drop_first()[i - 1].0 == k);
            }
        }
    }
}

/// With unique keys, the folded map sends each entry's key to its value.
pub proof fn lemma_fold_get(
    entries: Seq<(Seq<char>, Seq<char>)>,
    acc: Map<Seq<char>, Seq<char>>,
    i: int,
)
    requires
        unique_keys(entries),
        0 <= i < entries.len(),
    ensures
        fold_params(entries, acc).dom().contains(entries[i].0),
        fold_params(entries, acc)[entries[i].0] == entries[i].1,
    decreases entries.len(),
{
    let tail = entries.drop_first();
    assert(forall|a: int, b: int|
        0 <= a < b < tail.len() ==> tail[a] == entries[a + 1] && tail[b] == entries[b + 1]
            && tail[a].0 != tail[b].0);
    if i == 0 {
        assert(forall|j: int| 0 <= j < tail.len() ==> tail[j] == entries[j + 1] && tail[j].0 != entries[0].0);
        lemma_fold_insert_commute(tail, acc, entries[0].0, entries[0].1);
    } else {
        assert(tail[i - 1] == entries[i]);
        lemma_fold_get(tail, acc.insert(entries[0].0, entries[0].1), i - 1);
    }
}

/// With unique keys all disjoint from `acc`, folding adds exactly one map
/// entry per sequence entry.
pub proof fn lemma_fold_len(entries: Seq<(Seq<char>, Seq<char>)>, acc: Map<Seq<char>, Seq<char>>)
    requires
        unique_keys(entries),
        forall|i: int| 0 <= i < entries.len() ==> !acc.dom().contains(entries[i].0),
        acc.dom().finite(),
    ensures
        fold_params(entries, acc).dom().finite(),
        fold_params(entries, acc).dom().len() == acc.dom().len() + entries.len(),
    decreases entries.len(),
{
    if entries.len() != 0 {
        let acc2 = acc.insert(entries[0].0, entries[0].1);
        assert(acc2.dom() =~= acc.dom().insert(entries[0].0));
        let tail = entries.drop_first();
        assert(forall|a: int, b: int|
            0 <= a < b < tail.len() ==> tail[a] == entries[a + 1] && tail[b] == entries[b + 1]
                && tail[a].0 != tail[b].0);
        assert(forall|i: int|
            0 <= i < tail.len() ==> tail[i] == entries[i + 1] && !acc2.dom().contains(tail[i].0));
        lemma_fold_len(tail, acc2);
    }
}

/// Law: add-or-overwrite.  Inserting a value for a key and then a second
/// value for the same key leaves exactly the second value, as if the first
/// insertion had never happened.
pub proof fn lemma_add_param_overwrites(
    m: Map<Seq<char>, Seq<char>>,
    k: Seq<char>,
    v1: Seq<char>,
    v2: Seq<char>,
)
    ensures
        m.insert(k, v1).insert(k, v2) == m.insert(k, v2),
{
    assert(m.insert(k, v1).insert(k, v2) =~= m.insert(k, v2));
}

/// A string-keyed collection of query-parameter values with an "add or
/// overwrite" insertion rule: no key occurs twice.
#[derive(Debug)]
pub struct ParamMap {
    entries: Vec<(String, String)>,
}

impl View for ParamMap {
    type V = Map<Seq<char>, Seq<char>>;

    closed spec fn view(&self) -> Map<Seq<char>, Seq<char>> {
        params_map(self.entries.deep_view())
    }
}

impl ParamMap {
    #[verifier::type_invariant]
    spec fn wf(self) -> bool {
        unique_keys(self.entries.deep_view())
    }

    /// An empty parameter map.
    pub fn new() -> (r: ParamMap)
        ensures
            r@ == Map::<Seq<char>, Seq<char>>::empty(),
    {
        let entries: Vec<(String, String)> = Vec::new();
        proof {
            assert(entries.deep_view() =~~= Seq::<(Seq<char>, Seq<char>)>::empty());
        }
        ParamMap { entries }
    }

    /// Insert the given parameter, overwriting any prior value for the same
    /// key (last write wins; the map never holds two values for one key).
    pub fn add_param(&mut self, key: &str, value: &str)
        ensures
            final(self)@ == old(self)@.insert(key@, value@),
    {
        proof {
            use_type_invariant(&*self);
        }
        let ghost dv = old(self).entries.deep_view();
        let mut entries: Vec<(String, String)> = Vec::new();
        core::mem::swap(&mut entries, &mut self.entries);
        let n = entries.len();
        let mut idx: usize = 0;
        while idx < n
            invariant
                idx <= n,
                n == entries.len(),
                entries.deep_view() == dv,
                dv == old(self).entries.deep_view(),
                unique_keys(dv),
                forall|j: int| 0 <= j < idx ==> dv[j].0 != key@,
            decreases n - idx,
        {
            if str_eq(entries[idx].0.as_str(), key) {
                entries[idx] = (key.to_owned(), value.to_owned());
                proof {
                    assert(dv[idx as int].0 == key@);
                    assert(entries.deep_view() =~~= dv.update(idx as int, (key@, value@)));
                    assert(dv.update(idx as int, (key@, value@)) == dv.update(
                        idx as int,
                        (dv[idx as int].0, value@),
                    ));
                    lemma_fold_update(dv, Map::empty(), idx as int, value@);
                    assert(unique_keys(entries.deep_view()));
                    assert(params_map(entries.deep_view()) == params_map(dv).insert(key@, value@));
                }
                self.entries = entries;
                return ;
            }
            idx = idx + 1;
        }
        entries.push((key.to_owned(), value.to_owned()));
        proof {
            assert(entries.deep_view() =~~= dv.push((key@, value@)));
            lemma_fold_push(dv, Map::empty(), key@, value@);
            assert(forall|a: int, b: int|
                0 <= a < b < dv.push((key@, value@)).len() ==> dv.push((key@, value@))[a].0 != dv.push(
                    (key@, value@),
                )[b].0);
        }
        self.entries = entries;
    }

    /// Look up the value stored for `key`, if any.
    pub fn get(&self, key: &str) -> (r: Option<&String>)
        ensures
            match r {
                Some(v) => self@.dom().contains(key@) && v@ == self@[key@],
                None => !self@.dom().contains(key@),
            },
    {
        proof {
            use_type_invariant(&*self);
        }
        let ghost dv = self.entries.deep_view();
        let n = self.entries.len();
        let mut idx: usize = 0;
        while idx < n
            invariant
                idx <= n,
                n == self.entries.len(),
                self.entries.deep_view() == dv,
                unique_keys(dv),
                forall|j: int| 0 <= j < idx ==> dv[j].0 != key@,
            decreases n - idx,
        {
            if str_eq(self.entries[idx].0.as_str(), key) {
                proof {
                    lemma_fold_get(dv, Map::empty(), idx as int);
                }
                return Some(&self.entries[idx].1);
            }
            idx = idx + 1;
        }
        proof {
            lemma_fold_contains(dv, Map::empty(), key@);
        }
        None
    }

    /// Write the map back out as `key=value&key=value`, entries in
    /// insertion order.  When the map is non-empty and every key and value
    /// is a plain token (free of `&` and `=`), the result parses back to
    /// exactly this map.
    pub fn to_query_string(&self) -> (r: String)
        ensures
            self@.dom().len() > 0 && map_tokens_ok(self@) ==> parse_query(r@) == Some(self@),
            self@.dom().len() == 0 ==> r@ == Seq::<char>::empty(),
    {
        proof {
            use_type_invariant(&*self);
            assert(Map::<Seq<char>, Seq<char>>::empty().dom() =~= Set::<Seq<char>>::empty());
            lemma_fold_len(self.entries.deep_view(), Map::empty());
        }
        let ghost dv = self.entries.deep_view();
        let mut r = String::new();
        let mut i: usize = 0;
        proof {
            assert(dv.take(0) =~~= Seq::<(Seq<char>, Seq<char>)>::empty());
        }
        while i < self.entries.len()
            invariant
                i <= self.entries.len(),
                dv == self.entries.deep_view(),
                unique_keys(dv),
                r@ == encode_entries(dv.take(i as int)),
            decreases self.entries.len() - i,
        {
            if i > 0 {
                r.push('&');
            }
            r.append(self.entries[i].0.as_str());
            r.push('=');
            r.append(self.entries[i].1.as_str());
            proof {
                assert(dv[i as int].0 == self.entries@[i as int].0@);
                assert(dv[i as int].1 == self.entries@[i as int].1@);
                assert(dv.take(i as int + 1) =~~= dv.take(i as int).push(dv[i as int]));
                lemma_encode_entries_push(dv.take(i as int), dv[i as int]);
                if i > 0 {
                    assert(r@ =~= encode_entries(dv.take(i as int)) + seq!['&'] + (dv[i as int].0
                        + seq!['='] + dv[i as int].1));
                } else {
                    assert(r@ =~= dv[i as int].0 + seq!['='] + dv[i as int].1);
                }
            }
            i = i + 1;
        }
        proof {
            assert(dv.take(dv.len() as int) =~~= dv);
            if self@.dom().len() > 0 && map_tokens_ok(self@) {
                assert forall|j: int| 0 <= j < dv.len() implies crate::parse::token_ok(dv[j].0)
                    && crate::parse::token_ok(dv[j].1) by {
                    lemma_fold_get(dv, Map::empty(), j);
                }
                assert(entries_ok(dv));
                lemma_parse_round_trip(dv);
            }
        }
        r
    }

    /// How many distinct parameters the map holds.
    pub fn len(&self) -> (r: usize)
        ensures
            r == self@.dom().len(),
    {
        proof {
            use_type_invariant(&*self);
            assert(Map::<Seq<char>, Seq<char>>::empty().dom() =~= Set::<Seq<char>>::empty());
            lemma_fold_len(self.entries.deep_view(), Map::empty());
        }
        self.entries.len()
    }
}

} // verus!
