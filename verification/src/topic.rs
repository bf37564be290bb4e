//! Topic names and topic filters as sequences of levels.
use vstd::prelude::*;
use vstd::std_specs::iter::IteratorSpec;
use vstd::string::StrSliceExecFns;

verus! {

broadcast use vstd::string::group_string_axioms;

/// The levels of a topic: the pieces between '/' separators, as `str::split('/')`
/// yields them (an empty topic has one empty level).
pub open spec fn levels(s: Seq<char>) -> Seq<Seq<char>>
    decreases s.len(),
{
    if s.len() == 0 {
        seq![Seq::empty()]
    } else {
        let prev = levels(s.drop_last());
        if s.last() == '/' {
            prev.push(Seq::empty())
        } else {
            prev.update(prev.len() - 1, prev.last().push(s.last()))
        }
    }
}

/// The single-level wildcard `+`.
pub open spec fn plus() -> Seq<char> {
    seq!['+']
}

/// The multi-level wildcard `#`.
pub open spec fn hash() -> Seq<char> {
    seq!['#']
}

/// Whether a filter (as levels) matches a topic (as levels): `+` matches exactly
/// one level, `#` matches whatever remains (also nothing), any other level must be
/// equal to the topic's level at that position.
pub open spec fn filter_matches(f: Seq<Seq<char>>, t: Seq<Seq<char>>) -> bool
    decreases f.len(),
{
    if f.len() == 0 {
        t.len() == 0
    } else if f[0] == hash() {
        true
    } else if t.len() == 0 {
        false
    } else if f[0] == plus() {
        filter_matches(f.drop_first(), t.drop_first())
    } else {
        f[0] == t[0] && filter_matches(f.drop_first(), t.drop_first())
    }
}

/// The views of a sequence of strings.
pub open spec fn string_views(v: Seq<String>) -> Seq<Seq<char>> {
    v.map_values(|s: String| s@)
}

/// The levels put back together, with '/' between them.
pub open spec fn joined(l: Seq<Seq<char>>) -> Seq<char>
    decreases l.len(),
{
    if l.len() <= 1 {
        if l.len() == 1 {
            l[0]
        } else {
            Seq::empty()
        }
    } else {
        joined(l.drop_last()) + seq!['/'] + l.last()
    }
}

proof fn lemma_joined_levels(s: Seq<char>)
    ensures
        joined(levels(s)) == s,
    decreases s.len(),
{
    if s.len() > 0 {
        let prev = levels(s.drop_last());
        lemma_joined_levels(s.drop_last());
        lemma_levels_nonempty(s.drop_last());
        if s.last() == '/' {
            assert(levels(s).drop_last() =~= prev);
            assert(s =~= joined(prev) + seq!['/'] + Seq::<char>::empty());
        } else {
            let cur = levels(s);
            if prev.len() == 1 {
                assert(s =~= prev[0].push(s.last()));
            } else {
                assert(cur.drop_last() =~= prev.drop_last());
                assert(joined(prev) == joined(prev.drop_last()) + seq!['/'] + prev.last());
                assert(s == s.drop_last().push(s.last()));
                assert(s =~= joined(prev.drop_last()) + seq!['/'] + prev.last().push(s.last()));
            }
        }
    }
}

/// Two topics with the same levels are the same topic.
pub proof fn lemma_levels_injective(a: Seq<char>, b: Seq<char>)
    requires
        levels(a) == levels(b),
    ensures
        a == b,
{
    lemma_joined_levels(a);
    lemma_joined_levels(b);
}

pub proof fn lemma_levels_nonempty(s: Seq<char>)
    ensures
        levels(s).len() >= 1,
    decreases s.len(),
{
    if s.len() > 0 {
        lemma_levels_nonempty(s.drop_last());
    }
}

/// The characters of a string slice, in order.
pub fn chars_of(s: &str) -> (cs: Vec<char>)
    ensures
        cs@ == s@,
{
    let mut it = s.chars();
    let mut cs: Vec<char> = Vec::new();
    loop
        invariant
            it.remaining() == s@.skip(cs.len() as int),
            cs@ == s@.take(cs.len() as int),
            cs.len() <= s@.len(),
        ensures
            cs@ == s@,
        decreases s@.len() - cs.len(),
    {
        match it.next() {
            Some(c) => {
                cs.push(c);
            },
            None => {
                assert(cs@ =~= s@);
                break ;
            },
        }
    }
    cs
}

/// Splits a topic at each '/' into its levels.
pub fn split_levels(topic: &str) -> (parts: Vec<String>)
    ensures
        string_views(parts@) == levels(topic@),
{
    let cs = chars_of(topic);
    let n = cs.len();
    let mut parts: Vec<String> = Vec::new();
    let mut start: usize = 0;
    let mut i: usize = 0;
    assert(topic@.take(0) =~= Seq::<char>::empty());
    assert(string_views(parts@).push(topic@.subrange(0, 0)) =~= seq![Seq::<char>::empty()]);
    while i < n
        invariant
            n == cs@.len(),
            cs@ == topic@,
            start <= i <= n,
            levels(topic@.take(i as int)) == string_views(parts@).push(
                topic@.subrange(start as int, i as int),
            ),
        decreases n - i,
    {
        let c = cs[i];
        assert(topic@.take(i + 1).drop_last() =~= topic@.take(i as int));
        if c == '/' {
            let piece = topic.substring_char(start, i).to_owned();
            let ghost before = parts@;
            parts.push(piece);
            assert(string_views(parts@) =~= string_views(before).push(piece@));
            start = i + 1;
        }
        i = i + 1;
        assert(topic@.subrange(start as int, i as int) =~= if c == '/' {
            Seq::<char>::empty()
        } else {
            topic@.subrange(start as int, i - 1).push(c)
        });
    }
    assert(topic@.take(n as int) =~= topic@);
    let last = topic.substring_char(start, n).to_owned();
    let ghost before = parts@;
    parts.push(last);
    assert(string_views(parts@) =~= string_views(before).push(last@));
    parts
}

/// Whether `s` consists of exactly the one character `c`.
pub fn is_level(s: &str, c: char) -> (r: bool)
    ensures
        r == (s@ == seq![c]),
{
    let n = s.unicode_len();
    if n != 1 {
        return false;
    }
    let first = s.get_char(0);
    assert(first == c ==> s@ =~= seq![c]);
    first == c
}

/// Whether two string slices hold the same characters.
pub fn str_eq(a: &str, b: &str) -> (r: bool)
    ensures
        r == (a@ == b@),
{
    let ca = chars_of(a);
    let cb = chars_of(b);
    if ca.len() != cb.len() {
        return false;
    }
    let mut k: usize = 0;
    while k < ca.len()
        invariant
            ca@ == a@,
            cb@ == b@,
            ca@.len() == cb@.len(),
            k <= ca@.len(),
            forall|q: int| 0 <= q < k ==> ca@[q] == cb@[q],
        decreases ca.len() - k,
    {
        if ca[k] != cb[k] {
            return false;
        }
        k = k + 1;
    }
    assert(a@ =~= b@);
    true
}

/// The characters of an optional string.
pub open spec fn opt_chars(o: Option<String>) -> Option<Seq<char>> {
    match o {
        Some(s) => Some(s@),
        None => None,
    }
}

/// Whether two optional strings are equal.
pub fn opt_str_eq(a: &Option<String>, b: &Option<String>) -> (r: bool)
    ensures
        r == (opt_chars(*a) == opt_chars(*b)),
{
    match (a, b) {
        (Some(x), Some(y)) => str_eq(x.as_str(), y.as_str()),
        (None, None) => true,
        _ => false,
    }
}

} // verus!
