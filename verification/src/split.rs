//! Splitting strings on a separator character.
//!
//! The wire format handled by this crate is `base?k=v&k=v`, so everything
//! rests on one operation: cutting a string at every occurrence of a
//! separator.  `split_on` is the sequence-level specification; `split_str`
//! is the verified executable counterpart.  The lemmas here relate the
//! recursive definition to the "first occurrence at index `i`" view that
//! both the parser loop and the encoder proof need.
use vstd::prelude::*;
use vstd::string::StrSliceExecFns;

verus! {

/// The pieces of `s` between occurrences of the separator `c`: `n`
/// separators yield `n + 1` (possibly empty) pieces, so the result is never
/// empty and no piece contains `c`.
pub open spec fn split_on(s: Seq<char>, c: char) -> Seq<Seq<char>>
    decreases s.len(),
{
    if s.len() == 0 {
        seq![Seq::<char>::empty()]
    } else if s[0] == c {
        seq![Seq::<char>::empty()] + split_on(s.drop_first(), c)
    } else {
        let rest = split_on(s.drop_first(), c);
        seq![seq![s[0]] + rest[0]] + rest.skip(1)
    }
}

pub proof fn lemma_split_on_len(s: Seq<char>, c: char)
    ensures
        split_on(s, c).len() >= 1,
    decreases s.len(),
{
    if s.len() == 0 {
    } else if s[0] == c {
    } else {
        lemma_split_on_len(s.drop_first(), c);
    }
}

/// A string without the separator is a single piece.
pub proof fn lemma_split_on_no_sep(s: Seq<char>, c: char)
    requires
        forall|j: int| 0 <= j < s.len() ==> s[j] != c,
    ensures
        split_on(s, c) == seq![s],
    decreases s.len(),
{
    if s.len() == 0 {
        assert(split_on(s, c) =~~= seq![s]);
    } else {
        let t = s.drop_first();
        assert(forall|j: int| 0 <= j < t.len() ==> t[j] == s[j + 1] && t[j] != c);
        lemma_split_on_no_sep(t, c);
        lemma_split_on_len(t, c);
        assert(seq![s[0]] + t =~= s);
        assert(split_on(s, c) =~~= seq![s]);
    }
}

/// If the first occurrence of the separator is at index `i`, the split is
/// the prefix before `i` followed by the split of the suffix after `i`.
pub proof fn lemma_split_on_first_sep(s: Seq<char>, c: char, i: int)
    requires
        0 <= i < s.len(),
        s[i] == c,
        forall|j: int| 0 <= j < i ==> s[j] != c,
    ensures
        split_on(s, c) == seq![s.subrange(0, i)] + split_on(
            s.subrange(i + 1, s.len() as int),
            c,
        ),
    decreases i,
{
    if i == 0 {
        assert(s.subrange(0, 0) =~= Seq::<char>::empty());
        assert(s.subrange(1, s.len() as int) =~= s.drop_first());
        assert(split_on(s, c) =~~= seq![s.subrange(0, 0)] + split_on(
            s.subrange(1, s.len() as int),
            c,
        ));
    } else {
        let t = s.drop_first();
        assert(forall|j: int| 0 <= j < i - 1 ==> t[j] == s[j + 1] && t[j] != c);
        assert(t[i - 1] == c);
        lemma_split_on_first_sep(t, c, i - 1);
        lemma_split_on_len(s.subrange(i + 1, s.len() as int), c);
        assert(t.subrange(0, i - 1) =~= s.subrange(0, i).drop_first());
        assert(t.subrange(i, t.len() as int) =~= s.subrange(i + 1, s.len() as int));
        let rest = split_on(t, c);
        assert(rest == seq![t.subrange(0, i - 1)] + split_on(t.subrange(i, t.len() as int), c));
        assert(rest[0] == t.subrange(0, i - 1));
        assert(seq![s[0]] + rest[0] =~= s.subrange(0, i));
        assert(rest.skip(1) =~~= split_on(t.subrange(i, t.len() as int), c));
        assert(split_on(s, c) =~~= seq![s.subrange(0, i)] + split_on(
            s.subrange(i + 1, s.len() as int),
            c,
        ));
    }
}

/// Splitting `a` `c` `b` when `a` is free of `c`: the split is `a` followed
/// by the split of `b`.  This is the step the encoder proof walks with.
pub proof fn lemma_split_on_append(a: Seq<char>, c: char, b: Seq<char>)
    requires
        forall|j: int| 0 <= j < a.len() ==> a[j] != c,
    ensures
        split_on(a + seq![c] + b, c) == seq![a] + split_on(b, c),
{
    let s = a + seq![c] + b;
    let i = a.len() as int;
    assert(s[i] == c);
    assert(forall|j: int| 0 <= j < i ==> s[j] == a[j] && s[j] != c);
    lemma_split_on_first_sep(s, c, i);
    assert(s.subrange(0, i) =~= a);
    assert(s.subrange(i + 1, s.len() as int) =~= b);
}

/// The parts of `s` before and after the first occurrence of `c`, or `None`
/// when `c` does not occur at all.
pub open spec fn split_first(s: Seq<char>, c: char) -> Option<(Seq<char>, Seq<char>)>
    decreases s.len(),
{
    if s.len() == 0 {
        None
    } else if s[0] == c {
        Some((Seq::empty(), s.drop_first()))
    } else {
        match split_first(s.drop_first(), c) {
            None => None,
            Some(pq) => Some((seq![s[0]] + pq.0, pq.1)),
        }
    }
}

pub proof fn lemma_split_first_none(s: Seq<char>, c: char)
    requires
        forall|j: int| 0 <= j < s.len() ==> s[j] != c,
    ensures
        split_first(s, c) is None,
    decreases s.len(),
{
    if s.len() != 0 {
        let t = s.drop_first();
        assert(forall|j: int| 0 <= j < t.len() ==> t[j] == s[j + 1] && t[j] != c);
        lemma_split_first_none(t, c);
    }
}

/// If the first occurrence of `c` is at index `i`, `split_first` cuts
/// exactly there.
pub proof fn lemma_split_first_at(s: Seq<char>, c: char, i: int)
    requires
        0 <= i < s.len(),
        s[i] == c,
        forall|j: int| 0 <= j < i ==> s[j] != c,
    ensures
        split_first(s, c) == Some((s.subrange(0, i), s.subrange(i + 1, s.len() as int))),
    decreases i,
{
    if i == 0 {
        assert(s.subrange(0, 0) =~= Seq::<char>::empty());
        assert(s.subrange(1, s.len() as int) =~= s.drop_first());
    } else {
        let t = s.drop_first();
        assert(forall|j: int| 0 <= j < i - 1 ==> t[j] == s[j + 1] && t[j] != c);
        assert(t[i - 1] == c);
        lemma_split_first_at(t, c, i - 1);
        assert(seq![s[0]] + t.subrange(0, i - 1) =~= s.subrange(0, i));
        assert(t.subrange(i, t.len() as int) =~= s.subrange(i + 1, s.len() as int));
    }
}

/// First occurrence of `c` in `s` at or after index `from`.
pub fn find_from(s: &str, c: char, from: usize) -> (r: Option<usize>)
    requires
        from <= s@.len(),
    ensures
        match r {
            Some(i) => from <= i < s@.len() && s@[i as int] == c && (forall|j: int|
                from <= j < i ==> s@[j] != c),
            None => forall|j: int| from <= j < s@.len() ==> s@[j] != c,
        },
{
    let n = s.unicode_len();
    let mut i: usize = from;
    while i < n
        invariant
            from <= i <= n,
            n == s@.len(),
            forall|j: int| from <= j < i ==> s@[j] != c,
        decreases n - i,
    {
        if s.get_char(i) == c {
            return Some(i);
        }
        i = i + 1;
    }
    None
}

/// Character-for-character string equality.
pub fn str_eq(a: &str, b: &str) -> (r: bool)
    ensures
        r == (a@ == b@),
{
    let na = a.unicode_len();
    let nb = b.unicode_len();
    if na != nb {
        return false;
    }
    let mut i: usize = 0;
    while i < na
        invariant
            i <= na,
            na == a@.len(),
            nb == b@.len(),
            na == nb,
            forall|j: int| 0 <= j < i ==> a@[j] == b@[j],
        decreases na - i,
    {
        if a.get_char(i) != b.get_char(i) {
            return false;
        }
        i = i + 1;
    }
    proof {
        assert(a@ =~= b@);
    }
    true
}

/// Split `s` at every occurrence of `c`, executably.
pub fn split_str(s: &str, c: char) -> (r: Vec<String>)
    ensures
        r.deep_view() == split_on(s@, c),
{
    let n = s.unicode_len();
    let mut out: Vec<String> = Vec::new();
    let mut start: usize = 0;
    proof {
        assert(s@.subrange(0, n as int) =~= s@);
        assert(out.deep_view() =~~= Seq::<Seq<char>>::empty());
        assert(split_on(s@, c) =~~= out.deep_view() + split_on(s@.subrange(0, n as int), c));
    }
    loop
        invariant
            start <= n,
            n == s@.len(),
            split_on(s@, c) == out.deep_view() + split_on(s@.subrange(start as int, n as int), c),
        decreases n - start,
    {
        let ghost pre = out.deep_view();
        let ghost suffix = s@.subrange(start as int, n as int);
        match find_from(s, c, start) {
            None => {
                let piece = s.substring_char(start, n).to_owned();
                proof {
                    assert(forall|j: int|
                        0 <= j < suffix.len() ==> suffix[j] == s@[start + j] && suffix[j] != c);
                    lemma_split_on_no_sep(suffix, c);
                }
                out.push(piece);
                proof {
                    assert(piece@ == suffix);
                    assert(out.deep_view() =~~= pre.push(suffix));
                    assert(out.deep_view() =~~= pre + seq![suffix]);
                    assert(out.deep_view() =~~= split_on(s@, c));
                }
                return out;
            },
            Some(i) => {
                let piece = s.substring_char(start, i).to_owned();
                proof {
                    assert(suffix[i - start] == s@[i as int]);
                    assert(forall|j: int|
                        0 <= j < i - start ==> suffix[j] == s@[start + j] && suffix[j] != c);
                    lemma_split_on_first_sep(suffix, c, i - start);
                    assert(suffix.subrange(0, i - start) =~= s@.subrange(start as int, i as int));
                    assert(suffix.subrange(i - start + 1, suffix.len() as int) =~= s@.subrange(
                        i as int + 1,
                        n as int,
                    ));
                }
                out.push(piece);
                proof {
                    assert(piece@ == s@.subrange(start as int, i as int));
                    assert(out.deep_view() =~~= pre.push(piece@));
                    assert(out.deep_view() + split_on(s@.subrange(i as int + 1, n as int), c)
                        =~~= pre + split_on(suffix, c));
                }
                start = i + 1;
            },
        }
    }
}

} // verus!
