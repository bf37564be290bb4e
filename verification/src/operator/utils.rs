//! Matching topic names against topic filters.
use vstd::prelude::*;

use crate::topic::{filter_matches, hash, is_level, levels, plus, split_levels, string_views};

verus! {

/// Whether the topic filter `filter` matches the topic name `topic`, level by level.
pub fn topic_match(filter: &str, topic: &str) -> (r: bool)
    ensures
        r == filter_matches(levels(filter@), levels(topic@)),
{
    let fp = split_levels(filter);
    let tp = split_levels(topic);
    let ghost f = levels(filter@);
    let ghost t = levels(topic@);
    assert(f.skip(0) =~= f);
    assert(t.skip(0) =~= t);
    let mut i: usize = 0;
    while i < fp.len()
        invariant
            f == levels(filter@),
            t == levels(topic@),
            string_views(fp@) == f,
            string_views(tp@) == t,
            i <= fp.len(),
            i <= tp.len(),
            filter_matches(f, t) == filter_matches(f.skip(i as int), t.skip(i as int)),
        decreases fp.len() - i,
    {
        assert(f.skip(i as int)[0] == fp@[i as int]@);
        assert(f.skip(i as int).drop_first() =~= f.skip(i + 1));
        if is_level(fp[i].as_str(), '#') {
            return true;
        }
        if i >= tp.len() {
            return false;
        }
        assert(t.skip(i as int)[0] == tp@[i as int]@);
        assert(t.skip(i as int).drop_first() =~= t.skip(i + 1));
        if !is_level(fp[i].as_str(), '+') {
            if fp[i] != tp[i] {
                return false;
            }
        }
        i = i + 1;
    }
    i == tp.len()
}

/// Every topic matches itself used as a filter.
pub proof fn lemma_topic_matches_itself(t: Seq<Seq<char>>)
    ensures
        filter_matches(t, t),
    decreases t.len(),
{
    if t.len() > 0 {
        lemma_topic_matches_itself(t.drop_first());
    }
}

/// A filter without wildcards matches exactly the topic it spells.
pub proof fn lemma_plain_filter(f: Seq<Seq<char>>, t: Seq<Seq<char>>)
    requires
        forall|k: int| 0 <= k < f.len() ==> #[trigger] f[k] != hash() && f[k] != plus(),
    ensures
        filter_matches(f, t) == (f == t),
    decreases f.len(),
{
    if f.len() > 0 && t.len() > 0 {
        assert forall|k: int| 0 <= k < f.drop_first().len() implies #[trigger] f.drop_first()[k]
            != hash() && f.drop_first()[k] != plus() by {
            assert(f.drop_first()[k] == f[k + 1]);
        }
        lemma_plain_filter(f.drop_first(), t.drop_first());
        if f[0] == t[0] && f.drop_first() == t.drop_first() {
            assert(f =~= t) by {
                assert forall|k: int| 0 <= k < f.len() implies f[k] == t[k] by {
                    if k > 0 {
                        assert(f[k] == f.drop_first()[k - 1]);
                        assert(t[k] == t.drop_first()[k - 1]);
                    }
                }
            }
        }
        if f == t {
            assert(f.drop_first() =~= t.drop_first());
        }
    } else if f.len() == 0 && t.len() == 0 {
        assert(f =~= t);
    }
}

/// The filter `#` matches every topic; the filter `+` matches the topics of exactly
/// one level.
pub proof fn lemma_wildcard_filters(t: Seq<Seq<char>>)
    ensures
        filter_matches(seq![hash()], t),
        filter_matches(seq![plus()], t) == (t.len() == 1),
{
    assert(seq![plus()].drop_first().len() == 0);
    reveal_with_fuel(filter_matches, 2);
    if t.len() == 1 {
        assert(t.drop_first().len() == 0);
    }
    if t.len() > 1 {
        assert(t.drop_first().len() > 0);
    }
    lemma_plus_neq_hash();
}

proof fn lemma_plus_neq_hash()
    ensures
        plus() != hash(),
{
    assert(plus()[0] != hash()[0]);
}

/// A filter ending in `#` matches its own parent level and everything below it: with
/// `p` the levels before the `#`, the filter matches `p` and every topic that starts
/// with `p`.
pub proof fn lemma_hash_covers_parent(p: Seq<Seq<char>>, rest: Seq<Seq<char>>)
    ensures
        filter_matches(p.push(hash()), p + rest),
    decreases p.len(),
{
    if p.len() == 0 {
        assert(p.push(hash()) =~= seq![hash()]);
        lemma_wildcard_filters(p + rest);
    } else {
        assert(p.push(hash()).drop_first() =~= p.drop_first().push(hash()));
        assert((p + rest).drop_first() =~= p.drop_first() + rest);
        lemma_hash_covers_parent(p.drop_first(), rest);
        assert(p.push(hash())[0] == p[0]);
        assert((p + rest)[0] == p[0]);
    }
}

} // verus!
