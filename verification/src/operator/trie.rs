//! A trie of topic filters, used to find the subscribers of a topic.
use vstd::prelude::*;

use vstd::std_specs::cmp::PartialEqSpec;

use crate::topic::{
    filter_matches, hash, is_level, levels, plus, split_levels, str_eq, string_views,
};

verus! {

/// One level of the trie.
pub struct TrieNode<T> {
    /// the child reached through a `+` level
    pub single_wildcard_child: Option<Box<TrieNode<T>>>,
    /// values whose filter ends with `#` at this level
    pub multi_wildcard_matches: Vec<T>,
    /// children reached through a literal level, keyed by that level; a list with
    /// distinct keys, since vstd gives a `HashMap` or `BTreeMap` meaning only for keys
    /// whose hashing or ordering obeys its laws, which it states for integers and not for
    /// `String`
    pub literal_children: Vec<(String, TrieNode<T>)>,
    /// values whose filter ends exactly at this node
    pub exact_matches: Vec<T>,
}

/// The keys of a node's literal children are distinct, none of them is a wildcard,
/// and every child is itself well formed.
pub open spec fn node_wf<T>(node: TrieNode<T>) -> bool
    decreases node,
{
    &&& forall|i: int, j: int|
        0 <= i < j < node.literal_children@.len() ==> node.literal_children@[i].0@
            != node.literal_children@[j].0@
    &&& forall|i: int|
        0 <= i < node.literal_children@.len() ==> node.literal_children@[i].0@ != plus()
            && node.literal_children@[i].0@ != hash()
    &&& forall|i: int|
        0 <= i < node.literal_children@.len() ==> node_wf(
            #[trigger] node.literal_children@[i].1,
        )
    &&& match node.single_wildcard_child {
        Some(c) => node_wf(*c),
        None => true,
    }
}

/// Whether the subscription of `v` to filter `f` (as levels) is stored below `node`.
pub open spec fn node_has<T>(node: TrieNode<T>, f: Seq<Seq<char>>, v: T) -> bool
    decreases f.len(),
{
    if f.len() == 0 {
        node.exact_matches@.contains(v)
    } else if f[0] == hash() {
        f.len() == 1 && node.multi_wildcard_matches@.contains(v)
    } else if f[0] == plus() {
        match node.single_wildcard_child {
            Some(c) => node_has(*c, f.drop_first(), v),
            None => false,
        }
    } else {
        exists|i: int|
            0 <= i < node.literal_children@.len() && (#[trigger] node.literal_children@[i]).0@
                == f[0] && node_has(node.literal_children@[i].1, f.drop_first(), v)
    }
}

/// A filter in which `#` appears at most as the last level.
pub open spec fn well_placed(f: Seq<Seq<char>>) -> bool {
    forall|k: int| 0 <= k < f.len() - 1 ==> f[k] != hash()
}

/// A trie of topic filters, each stored with the values subscribed through it.
pub struct TopicTrie<T> {
    root: TrieNode<T>,
}

impl<T> View for TopicTrie<T> {
    type V = Set<(Seq<Seq<char>>, T)>;

    /// The stored subscriptions: pairs of a filter (as levels) and a value.
    closed spec fn view(&self) -> Set<(Seq<Seq<char>>, T)> {
        Set::new(|p: (Seq<Seq<char>>, T)| node_has(self.root, p.0, p.1))
    }
}

fn empty_node<T>() -> (n: TrieNode<T>)
    ensures
        node_wf(n),
        forall|f: Seq<Seq<char>>, v: T| !node_has(n, f, v),
{
    let n = TrieNode {
        single_wildcard_child: None,
        multi_wildcard_matches: Vec::new(),
        literal_children: Vec::new(),
        exact_matches: Vec::new(),
    };
    assert forall|f: Seq<Seq<char>>, v: T| !node_has(n, f, v) by {
        if f.len() > 0 && f[0] != hash() && f[0] != plus() {
            assert(n.literal_children@.len() == 0);
        }
    }
    n
}

/// Finds the index of the literal child keyed by `key`, if there is one.
fn find_child<T>(children: &Vec<(String, TrieNode<T>)>, key: &String) -> (r: Option<usize>)
    ensures
        match r {
            Some(j) => j < children@.len() && children@[j as int].0@ == key@,
            None => forall|i: int| 0 <= i < children@.len() ==> children@[i].0@ != key@,
        },
{
    let mut j: usize = 0;
    while j < children.len()
        invariant
            j <= children@.len(),
            forall|i: int| 0 <= i < j ==> children@[i].0@ != key@,
        decreases children.len() - j,
    {
        if children[j].0 == *key {
            return Some(j);
        }
        j = j + 1;
    }
    None
}

proof fn lemma_well_placed_step(p: Seq<Seq<char>>, i: int)
    requires
        0 <= i < p.len(),
        p[i] != hash(),
    ensures
        well_placed(p.skip(i)) == well_placed(p.skip(i + 1)),
        p.skip(i)[0] == p[i],
        p.skip(i).drop_first() =~= p.skip(i + 1),
{
    if well_placed(p.skip(i + 1)) {
        assert forall|k: int| 0 <= k < p.skip(i).len() - 1 implies #[trigger] p.skip(i)[k] != hash() by {
            if k > 0 {
                assert(p.skip(i)[k] == p.skip(i + 1)[k - 1]);
            }
        }
    }
    if well_placed(p.skip(i)) {
        assert forall|k: int| 0 <= k < p.skip(i + 1).len() - 1 implies #[trigger] p.skip(i + 1)[k] != hash() by {
            assert(p.skip(i)[k + 1] == p.skip(i + 1)[k]);
        }
    }
}

pub proof fn lemma_cons_eq<A>(a: Seq<A>, b: Seq<A>)
    requires
        a.len() > 0,
        b.len() > 0,
        a[0] == b[0],
        a.drop_first() == b.drop_first(),
    ensures
        a == b,
{
    assert(a.drop_first().len() == a.len() - 1);
    assert(b.drop_first().len() == b.len() - 1);
    assert(a.len() == b.len());
    assert forall|k: int| 0 <= k < a.len() implies a[k] == b[k] by {
        if k > 0 {
            assert(a[k] == a.drop_first()[k - 1]);
            assert(b[k] == b.drop_first()[k - 1]);
        }
    }
    assert(a =~= b);
}

proof fn lemma_push_contains<A>(s: Seq<A>, x: A, v: A)
    ensures
        s.push(x).contains(v) <==> (s.contains(v) || v == x),
{
    if v == x {
        assert(s.push(x)[s.len() as int] == x);
    }
    if s.contains(v) {
        let k = choose|k: int| 0 <= k < s.len() && s[k] == v;
        assert(s.push(x)[k] == v);
    }
    if s.push(x).contains(v) {
        let k = choose|k: int| 0 <= k < s.push(x).len() && s.push(x)[k] == v;
        if k < s.len() {
            assert(s[k] == v);
        }
    }
}

/// Unfolds `node_has` at a level with no literal child keyed by `f[0]`.
proof fn lemma_has_no_child<T>(node: TrieNode<T>, f: Seq<Seq<char>>, v: T)
    requires
        f.len() > 0,
        f[0] != hash(),
        f[0] != plus(),
        forall|i: int| 0 <= i < node.literal_children@.len() ==> node.literal_children@[i].0@ != f[0],
    ensures
        !node_has(node, f, v),
{
}

/// Unfolds `node_has` at a level whose literal child `j` is keyed by `f[0]`.
proof fn lemma_has_child<T>(node: TrieNode<T>, f: Seq<Seq<char>>, v: T, j: int)
    requires
        node_wf(node),
        f.len() > 0,
        f[0] != hash(),
        f[0] != plus(),
        0 <= j < node.literal_children@.len(),
        node.literal_children@[j].0@ == f[0],
    ensures
        node_has(node, f, v) == node_has(node.literal_children@[j].1, f.drop_first(), v),
{
    if node_has(node, f, v) {
        let m = choose|m: int|
            0 <= m < node.literal_children@.len() && (#[trigger] node.literal_children@[m]).0@
                == f[0] && node_has(node.literal_children@[m].1, f.drop_first(), v);
        assert(m == j);
    }
    if node_has(node.literal_children@[j].1, f.drop_first(), v) {
        assert(node.literal_children@[j].0@ == f[0]);
    }
}

/// Unfolds `node_has` at a `+` level.
proof fn lemma_has_plus<T>(node: TrieNode<T>, f: Seq<Seq<char>>, v: T)
    requires
        f.len() > 0,
        f[0] == plus(),
    ensures
        node_has(node, f, v) == match node.single_wildcard_child {
            Some(c) => node_has(*c, f.drop_first(), v),
            None => false,
        },
{
    assert(hash()[0] != plus()[0]);
}

/// `node_has` depends on the literal children only through the children
/// whose key is the first level of the filter.
proof fn lemma_has_same_children<T>(a: TrieNode<T>, b: TrieNode<T>, f: Seq<Seq<char>>, v: T)
    requires
        node_wf(a),
        node_wf(b),
        f.len() > 0,
        f[0] != hash(),
        f[0] != plus(),
        a.literal_children@.len() == b.literal_children@.len(),
        forall|i: int|
            0 <= i < a.literal_children@.len() && a.literal_children@[i].0@ == f[0]
                ==> a.literal_children@[i] == b.literal_children@[i],
        forall|i: int|
            0 <= i < a.literal_children@.len() ==> a.literal_children@[i].0@
                == b.literal_children@[i].0@,
    ensures
        node_has(a, f, v) == node_has(b, f, v),
{
    if exists|i: int| 0 <= i < a.literal_children@.len() && a.literal_children@[i].0@ == f[0] {
        let i = choose|i: int| 0 <= i < a.literal_children@.len() && a.literal_children@[i].0@ == f[0];
        lemma_has_child(a, f, v, i);
        lemma_has_child(b, f, v, i);
    } else {
        lemma_has_no_child(a, f, v);
        lemma_has_no_child(b, f, v);
    }
}

/// The change that inserting `value` under the levels `rest` makes to a node.
pub open spec fn inserted<T>(
    before: TrieNode<T>,
    after: TrieNode<T>,
    rest: Seq<Seq<char>>,
    value: T,
) -> bool {
    forall|f: Seq<Seq<char>>, v: T|
        #[trigger] node_has(after, f, v) <==> (node_has(before, f, v) || (well_placed(rest) && f
            == rest && v == value))
}

/// Adds `value` under the filter levels `parts[i..]` below `node`.
fn insert_rec<T>(node: &mut TrieNode<T>, parts: &Vec<String>, i: usize, value: T)
    requires
        node_wf(*old(node)),
        i <= parts@.len(),
    ensures
        node_wf(*final(node)),
        inserted(*old(node), *final(node), string_views(parts@).skip(i as int), value),
    decreases parts@.len() - i,
{
    let ghost p = string_views(parts@);
    let ghost rest = p.skip(i as int);
    if i == parts.len() {
        node.exact_matches.push(value);
        assert forall|f: Seq<Seq<char>>, v: T|
            #[trigger] node_has(*node, f, v) <==> (node_has(*old(node), f, v) || (well_placed(rest)
                && f == rest && v == value)) by {
            assert(rest.len() == 0);
            if f.len() == 0 {
                assert(f =~= rest);
                lemma_push_contains(old(node).exact_matches@, value, v);
            } else if f[0] != hash() && f[0] != plus() {
                lemma_has_same_children(*old(node), *node, f, v);
            }
        }
        return ;
    }
    assert(rest[0] == parts@[i as int]@);
    if is_level(parts[i].as_str(), '#') {
        if i == parts.len() - 1 {
            node.multi_wildcard_matches.push(value);
        }
        assert forall|f: Seq<Seq<char>>, v: T|
            #[trigger] node_has(*node, f, v) <==> (node_has(*old(node), f, v) || (well_placed(rest)
                && f == rest && v == value)) by {
            if i < parts.len() - 1 {
                assert(rest[0] == hash());
                assert(!well_placed(rest));
            } else {
                assert(well_placed(rest));
                if f.len() > 0 && f[0] == hash() {
                    lemma_push_contains(old(node).multi_wildcard_matches@, value, v);
                    if f.len() == 1 {
                        assert(f =~= rest);
                    }
                }
            }
            if f.len() > 0 && f[0] != hash() && f[0] != plus() {
                lemma_has_same_children(*old(node), *node, f, v);
            }
        }
        return ;
    }
    proof {
        lemma_well_placed_step(p, i as int);
    }
    if is_level(parts[i].as_str(), '+') {
        assert(rest[0] == plus());
        let mut child = match node.single_wildcard_child.take() {
            Some(c) => c,
            None => Box::new(empty_node()),
        };
        let ghost before = *child;
        insert_rec(&mut *child, parts, i + 1, value);
        let ghost after = *child;
        node.single_wildcard_child = Some(child);
        assert forall|f: Seq<Seq<char>>, v: T|
            #[trigger] node_has(*node, f, v) <==> (node_has(*old(node), f, v) || (well_placed(rest)
                && f == rest && v == value)) by {
            if f.len() > 0 && f[0] == plus() {
                lemma_has_plus(*node, f, v);
                lemma_has_plus(*old(node), f, v);
                assert(node_has(after, f.drop_first(), v) == (node_has(before, f.drop_first(), v)
                    || (well_placed(p.skip(i + 1)) && f.drop_first() == p.skip(i + 1) && v
                    == value)));
                if f == rest {
                    assert(f.drop_first() =~= p.skip(i + 1));
                }
                if f.drop_first() == p.skip(i + 1) {
                    lemma_cons_eq(f, rest);
                }
            } else if f.len() > 0 && f[0] != hash() {
                lemma_has_same_children(*old(node), *node, f, v);
            }
        }
    } else {
        let found = find_child(&node.literal_children, &parts[i]);
        match found {
            Some(j) => {
                assert(node_wf(old(node).literal_children@[j as int].1));
                let (k, mut child) = node.literal_children.remove(j);
                let ghost before = child;
                insert_rec(&mut child, parts, i + 1, value);
                let ghost after = child;
                node.literal_children.insert(j, (k, child));
                assert(node.literal_children@ =~= old(node).literal_children@.update(
                    j as int,
                    (k, after),
                ));
                assert forall|f: Seq<Seq<char>>, v: T|
                    #[trigger] node_has(*node, f, v) <==> (node_has(*old(node), f, v) || (
                    well_placed(rest) && f == rest && v == value)) by {
                    if f.len() > 0 && f[0] != hash() && f[0] != plus() {
                        if f[0] == k@ {
                            lemma_has_child(*node, f, v, j as int);
                            lemma_has_child(*old(node), f, v, j as int);
                            assert(node_has(after, f.drop_first(), v) == (node_has(
                                before,
                                f.drop_first(),
                                v,
                            ) || (well_placed(p.skip(i + 1)) && f.drop_first() == p.skip(i + 1)
                                && v == value)));
                            if f == rest {
                                assert(f.drop_first() =~= p.skip(i + 1));
                            }
                            if f.drop_first() == p.skip(i + 1) {
                                lemma_cons_eq(f, rest);
                            }
                        } else {
                            lemma_has_same_children(*old(node), *node, f, v);
                        }
                    }
                }
            },
            None => {
                let mut child = empty_node();
                let ghost before = child;
                insert_rec(&mut child, parts, i + 1, value);
                let key = parts[i].clone();
                let ghost after = child;
                node.literal_children.push((key, child));
                let ghost n = old(node).literal_children@.len() as int;
                assert(node.literal_children@ =~= old(node).literal_children@.push((key, after)));
                assert forall|f: Seq<Seq<char>>, v: T|
                    #[trigger] node_has(*node, f, v) <==> (node_has(*old(node), f, v) || (
                    well_placed(rest) && f == rest && v == value)) by {
                    if f.len() > 0 && f[0] != hash() && f[0] != plus() {
                        if f[0] == key@ {
                            lemma_has_child(*node, f, v, n);
                            lemma_has_no_child(*old(node), f, v);
                            assert(node_has(after, f.drop_first(), v) == (node_has(
                                before,
                                f.drop_first(),
                                v,
                            ) || (well_placed(p.skip(i + 1)) && f.drop_first() == p.skip(i + 1)
                                && v == value)));
                            if f == rest {
                                assert(f.drop_first() =~= p.skip(i + 1));
                            }
                            if f.drop_first() == p.skip(i + 1) {
                                lemma_cons_eq(f, rest);
                            }
                        } else {
                            if exists|m: int|
                                0 <= m < n && old(node).literal_children@[m].0@ == f[0] {
                                let m = choose|m: int|
                                    0 <= m < n && old(node).literal_children@[m].0@ == f[0];
                                lemma_has_child(*node, f, v, m);
                                lemma_has_child(*old(node), f, v, m);
                            } else {
                                lemma_has_no_child(*node, f, v);
                                lemma_has_no_child(*old(node), f, v);
                            }
                        }
                    }
                }
            },
        }
    }
}

/// Whether some subscription stored below `node` delivers `v` for the topic levels `t`.
pub open spec fn matches_in<T>(node: TrieNode<T>, t: Seq<Seq<char>>, v: T) -> bool {
    exists|f: Seq<Seq<char>>| node_has(node, f, v) && #[trigger] filter_matches(f, t)
}

/// Whether the subscriptions `subs` deliver `v` for the topic `topic`.
pub open spec fn subscribed<T>(subs: Set<(Seq<Seq<char>>, T)>, topic: Seq<char>, v: T) -> bool {
    exists|f: Seq<Seq<char>>| subs.contains((f, v)) && #[trigger] filter_matches(f, levels(topic))
}

/// `v` is in `s`, or `s` holds an element equal to `v` by `==`.
pub open spec fn covered<T: PartialEq>(s: Seq<&T>, v: T) -> bool {
    exists|k: int| 0 <= k < s.len() && (*s[k] == v || (#[trigger] s[k]).eq_spec(&v))
}

/// No element of `s` is equal by `==` to a later one.
pub open spec fn no_dup<T: PartialEq>(s: Seq<&T>) -> bool {
    T::obeys_eq_spec() ==> forall|a: int, b: int|
        0 <= a < b < s.len() ==> !(#[trigger] s[a]).eq_spec(#[trigger] s[b])
}

/// `s` starts with `prefix`.
pub open spec fn extends<A>(s: Seq<A>, prefix: Seq<A>) -> bool {
    prefix.len() <= s.len() && forall|k: int| 0 <= k < prefix.len() ==> s[k] == prefix[k]
}

proof fn lemma_hash_plus()
    ensures
        hash() != plus(),
{
    assert(hash()[0] != plus()[0]);
}

/// Unfolds `matches_in` by one level of the trie.
proof fn lemma_matches_unfold<T>(node: TrieNode<T>, t: Seq<Seq<char>>, v: T)
    requires
        node_wf(node),
    ensures
        matches_in(node, t, v) == (node.multi_wildcard_matches@.contains(v) || (t.len() == 0
            && node.exact_matches@.contains(v)) || (t.len() > 0 && match node.single_wildcard_child {
            Some(c) => matches_in(*c, t.drop_first(), v),
            None => false,
        }) || (t.len() > 0 && exists|i: int|
            0 <= i < node.literal_children@.len() && (#[trigger] node.literal_children@[i]).0@
                == t[0] && matches_in(node.literal_children@[i].1, t.drop_first(), v))),
{
    lemma_hash_plus();
    if matches_in(node, t, v) {
        let f = choose|f: Seq<Seq<char>>| node_has(node, f, v) && #[trigger] filter_matches(f, t);
        if f.len() == 0 {
        } else if f[0] == hash() {
        } else if f[0] == plus() {
            lemma_has_plus(node, f, v);
            let c = node.single_wildcard_child.unwrap();
            assert(node_has(*c, f.drop_first(), v) && filter_matches(f.drop_first(), t.drop_first()));
        } else {
            let i = choose|i: int|
                0 <= i < node.literal_children@.len() && (#[trigger] node.literal_children@[i]).0@
                    == f[0] && node_has(node.literal_children@[i].1, f.drop_first(), v);
            assert(filter_matches(f.drop_first(), t.drop_first()));
            assert(matches_in(node.literal_children@[i].1, t.drop_first(), v));
        }
    }
    if node.multi_wildcard_matches@.contains(v) {
        let f = seq![hash()];
        assert(node_has(node, f, v));
        assert(filter_matches(f, t));
    }
    if t.len() == 0 && node.exact_matches@.contains(v) {
        let f = Seq::<Seq<char>>::empty();
        assert(node_has(node, f, v));
        assert(filter_matches(f, t));
    }
    if t.len() > 0 {
        match node.single_wildcard_child {
            Some(c) => {
                if matches_in(*c, t.drop_first(), v) {
                    let g = choose|g: Seq<Seq<char>>|
                        node_has(*c, g, v) && #[trigger] filter_matches(g, t.drop_first());
                    let f = seq![plus()] + g;
                    assert(f.drop_first() =~= g);
                    lemma_has_plus(node, f, v);
                    assert(node_has(node, f, v));
                    assert(filter_matches(f, t));
                }
            },
            None => {},
        }
        if exists|i: int|
            0 <= i < node.literal_children@.len() && (#[trigger] node.literal_children@[i]).0@
                == t[0] && matches_in(node.literal_children@[i].1, t.drop_first(), v) {
            let i = choose|i: int|
                0 <= i < node.literal_children@.len() && (#[trigger] node.literal_children@[i]).0@
                    == t[0] && matches_in(node.literal_children@[i].1, t.drop_first(), v);
            let child = node.literal_children@[i].1;
            let g = choose|g: Seq<Seq<char>>|
                node_has(child, g, v) && #[trigger] filter_matches(g, t.drop_first());
            let f = seq![t[0]] + g;
            assert(f.drop_first() =~= g);
            lemma_has_child(node, f, v, i);
            assert(node_has(node, f, v));
            assert(filter_matches(f, t));
        }
    }
}

/// Appends `x` to `results` unless an element equal to it by `==` is already there.
fn push_unique<'a, T: PartialEq>(results: &mut Vec<&'a T>, x: &'a T)
    requires
        no_dup(old(results)@),
    ensures
        extends(final(results)@, old(results)@),
        forall|k: int| old(results)@.len() <= k < final(results)@.len() ==> *final(results)@[k] == *x,
        T::obeys_eq_spec() ==> covered(final(results)@, *x),
        no_dup(final(results)@),
{
    let mut k: usize = 0;
    while k < results.len()
        invariant
            results@ == old(results)@,
            k <= results@.len(),
            no_dup(results@),
            T::obeys_eq_spec() ==> forall|q: int| 0 <= q < k ==> !results@[q].eq_spec(x),
        decreases results.len() - k,
    {
        if results[k].eq(x) {
            assert(T::obeys_eq_spec() ==> results@[k as int].eq_spec(x));
            return ;
        }
        k = k + 1;
    }
    let ghost n = results@.len();
    results.push(x);
    assert(*results@[n as int] == *x);
}

proof fn lemma_covered_extends<T: PartialEq>(s: Seq<&T>, prefix: Seq<&T>, v: T)
    requires
        extends(s, prefix),
        covered(prefix, v),
    ensures
        covered(s, v),
{
    let k = choose|k: int|
        0 <= k < prefix.len() && (*prefix[k] == v || (#[trigger] prefix[k]).eq_spec(&v));
    assert(s[k] == prefix[k]);
}

/// Appends to `results` each value stored below `node` whose filter matches the topic
/// levels `t[i..]`, leaving out values equal by `==` to one already there.
fn collect_matches<'a, T: PartialEq>(
    node: &'a TrieNode<T>,
    t: &Vec<String>,
    i: usize,
    results: &mut Vec<&'a T>,
)
    requires
        node_wf(*node),
        i <= t@.len(),
        no_dup(old(results)@),
    ensures
        extends(final(results)@, old(results)@),
        forall|k: int|
            old(results)@.len() <= k < final(results)@.len() ==> matches_in(
                *node,
                string_views(t@).skip(i as int),
                *final(results)@[k],
            ),
        T::obeys_eq_spec() ==> forall|v: T|
            matches_in(*node, string_views(t@).skip(i as int), v) ==> covered(final(results)@, v),
        no_dup(final(results)@),
    decreases t@.len() - i,
{
    let ghost ts = string_views(t@).skip(i as int);
    let ghost start = results@;
    let mut j: usize = 0;
    while j < node.multi_wildcard_matches.len()
        invariant
            node_wf(*node),
            extends(results@, start),
            forall|k: int|
                start.len() <= k < results@.len() ==> node.multi_wildcard_matches@.contains(
                    *results@[k],
                ),
            T::obeys_eq_spec() ==> forall|q: int|
                0 <= q < j ==> covered(results@, #[trigger] node.multi_wildcard_matches@[q]),
            no_dup(results@),
            j <= node.multi_wildcard_matches@.len(),
        decreases node.multi_wildcard_matches.len() - j,
    {
        let ghost before = results@;
        push_unique(results, &node.multi_wildcard_matches[j]);
        proof {
            assert forall|k: int| start.len() <= k < results@.len() implies node.multi_wildcard_matches@.contains(
                *results@[k],
            ) by {
                if k >= before.len() {
                    assert(node.multi_wildcard_matches@[j as int] == *results@[k]);
                } else {
                    assert(results@[k] == before[k]);
                }
            }
            if T::obeys_eq_spec() {
                assert forall|q: int| 0 <= q < j + 1 implies covered(
                    results@,
                    #[trigger] node.multi_wildcard_matches@[q],
                ) by {
                    if q < j {
                        lemma_covered_extends(results@, before, node.multi_wildcard_matches@[q]);
                    }
                }
            }
        }
        j = j + 1;
    }
    let ghost after_multi = results@;
    proof {
        assert forall|k: int| start.len() <= k < results@.len() implies matches_in(
            *node,
            ts,
            *results@[k],
        ) by {
            lemma_matches_unfold(*node, ts, *results@[k]);
        }
        if T::obeys_eq_spec() {
            assert forall|v: T| node.multi_wildcard_matches@.contains(v) implies covered(
                results@,
                v,
            ) by {
                let q = choose|q: int|
                    0 <= q < node.multi_wildcard_matches@.len() && node.multi_wildcard_matches@[q]
                        == v;
                assert(covered(results@, node.multi_wildcard_matches@[q]));
            }
        }
    }
    if i == t.len() {
        let mut j: usize = 0;
        while j < node.exact_matches.len()
            invariant
                node_wf(*node),
                i == t@.len(),
                ts.len() == 0,
                extends(results@, after_multi),
                extends(after_multi, start),
                forall|k: int|
                    start.len() <= k < results@.len() ==> matches_in(*node, ts, *results@[k]),
                T::obeys_eq_spec() ==> forall|v: T|
                    node.multi_wildcard_matches@.contains(v) ==> covered(after_multi, v),
                T::obeys_eq_spec() ==> forall|q: int|
                    0 <= q < j ==> covered(results@, #[trigger] node.exact_matches@[q]),
                no_dup(results@),
                j <= node.exact_matches@.len(),
            decreases node.exact_matches.len() - j,
        {
            let ghost before = results@;
            push_unique(results, &node.exact_matches[j]);
            proof {
                assert forall|k: int| start.len() <= k < results@.len() implies matches_in(
                    *node,
                    ts,
                    *results@[k],
                ) by {
                    if k >= before.len() {
                        assert(node.exact_matches@[j as int] == *results@[k]);
                        lemma_matches_unfold(*node, ts, *results@[k]);
                    } else {
                        assert(results@[k] == before[k]);
                    }
                }
                if T::obeys_eq_spec() {
                    assert forall|q: int| 0 <= q < j + 1 implies covered(
                        results@,
                        #[trigger] node.exact_matches@[q],
                    ) by {
                        if q < j {
                            lemma_covered_extends(results@, before, node.exact_matches@[q]);
                        }
                    }
                }
            }
            j = j + 1;
        }
        proof {
            if T::obeys_eq_spec() {
                assert forall|v: T| matches_in(*node, ts, v) implies covered(results@, v) by {
                    lemma_matches_unfold(*node, ts, v);
                    if node.multi_wildcard_matches@.contains(v) {
                        lemma_covered_extends(results@, after_multi, v);
                    } else {
                        let q = choose|q: int|
                            0 <= q < node.exact_matches@.len() && node.exact_matches@[q] == v;
                        assert(covered(results@, node.exact_matches@[q]));
                    }
                }
            }
        }
        return ;
    }
    assert(ts[0] == t@[i as int]@);
    assert(ts.drop_first() =~= string_views(t@).skip(i + 1));
    let ghost after_single = results@;
    match &node.single_wildcard_child {
        Some(c) => {
            collect_matches(&**c, t, i + 1, results);
        },
        None => {},
    }
    let ghost mid = results@;
    proof {
        assert forall|k: int| start.len() <= k < results@.len() implies matches_in(
            *node,
            ts,
            *results@[k],
        ) by {
            if k >= after_single.len() {
                lemma_matches_unfold(*node, ts, *results@[k]);
            } else {
                assert(results@[k] == after_single[k]);
            }
        }
    }
    let found = find_child(&node.literal_children, &t[i]);
    match found {
        Some(j) => {
            assert(node_wf(node.literal_children@[j as int].1));
            collect_matches(&node.literal_children[j].1, t, i + 1, results);
        },
        None => {},
    }
    proof {
        assert forall|k: int| start.len() <= k < results@.len() implies matches_in(
            *node,
            ts,
            *results@[k],
        ) by {
            if k >= mid.len() {
                lemma_matches_unfold(*node, ts, *results@[k]);
            } else {
                assert(results@[k] == mid[k]);
            }
        }
        if T::obeys_eq_spec() {
            assert forall|v: T| matches_in(*node, ts, v) implies covered(results@, v) by {
                lemma_matches_unfold(*node, ts, v);
                if node.multi_wildcard_matches@.contains(v) {
                    lemma_covered_extends(mid, after_multi, v);
                    lemma_covered_extends(results@, mid, v);
                } else if (match node.single_wildcard_child {
                    Some(c) => matches_in(*c, ts.drop_first(), v),
                    None => false,
                }) {
                    lemma_covered_extends(results@, mid, v);
                } else {
                    let q = choose|q: int|
                        0 <= q < node.literal_children@.len()
                            && (#[trigger] node.literal_children@[q]).0@ == ts[0] && matches_in(
                            node.literal_children@[q].1,
                            ts.drop_first(),
                            v,
                        );
                    assert(q == found.unwrap());
                }
            }
        }
    }
}

/// The filter whose subscriptions `remove` drops for the topic levels `p`: `p` itself,
/// or `p` cut just after its first `#`.
pub open spec fn removal_key(p: Seq<Seq<char>>) -> Seq<Seq<char>>
    decreases p.len(),
{
    if p.len() == 0 {
        p
    } else if p[0] == hash() {
        seq![hash()]
    } else {
        seq![p[0]] + removal_key(p.drop_first())
    }
}

/// A node that holds nothing.
pub open spec fn node_empty<T>(node: TrieNode<T>) -> bool {
    &&& node.exact_matches@.len() == 0
    &&& node.multi_wildcard_matches@.len() == 0
    &&& node.literal_children@.len() == 0
    &&& node.single_wildcard_child is None
}

proof fn lemma_key_cons(key: Seq<Seq<char>>, h: Seq<char>, tail: Seq<Seq<char>>, f: Seq<Seq<char>>)
    requires
        key == seq![h] + tail,
        f.len() > 0,
        f[0] == h,
    ensures
        (f == key) == (f.drop_first() == tail),
{
    assert(key.drop_first() =~= tail);
    if f.drop_first() == tail {
        lemma_cons_eq(f, key);
    }
}

proof fn lemma_empty_has_nothing<T>(node: TrieNode<T>, f: Seq<Seq<char>>, v: T)
    requires
        node_empty(node),
    ensures
        !node_has(node, f, v),
{
    if f.len() > 0 && f[0] != hash() && f[0] != plus() {
        lemma_has_no_child(node, f, v);
    }
}

/// What removing the values equal to `value` under the filter `key` does to a node.
pub open spec fn removed<T: PartialEq>(
    before: TrieNode<T>,
    after: TrieNode<T>,
    key: Seq<Seq<char>>,
    value: T,
) -> bool {
    &&& forall|f: Seq<Seq<char>>, v: T| #[trigger] node_has(after, f, v) ==> node_has(before, f, v)
    &&& forall|f: Seq<Seq<char>>, v: T|
        f != key ==> (#[trigger] node_has(after, f, v) == node_has(before, f, v))
    &&& T::obeys_eq_spec() ==> forall|f: Seq<Seq<char>>, v: T|
        #[trigger] node_has(after, f, v) == (node_has(before, f, v) && !(f == key && v.eq_spec(
            &value,
        )))
}

/// Keeps the elements of `items` that are not equal to `value` by `==`.
fn retain_ne<T: PartialEq>(items: &mut Vec<T>, value: &T)
    ensures
        forall|x: T| final(items)@.contains(x) ==> old(items)@.contains(x),
        T::obeys_eq_spec() ==> forall|x: T|
            final(items)@.contains(x) == (old(items)@.contains(x) && !x.eq_spec(value)),
{
    let ghost orig = items@;
    let mut rest: Vec<T> = Vec::new();
    std::mem::swap(&mut rest, items);
    let ghost n = orig.len();
    let len0 = rest.len();
    assert(rest@.len() == n);
    assert(n <= usize::MAX);
    let mut k: usize = 0;
    while rest.len() > 0
        invariant
            n <= usize::MAX,
            rest@ == orig.skip(k as int),
            k <= n,
            n == orig.len(),
            forall|x: T| items@.contains(x) ==> orig.take(k as int).contains(x),
            T::obeys_eq_spec() ==> forall|x: T|
                items@.contains(x) == (orig.take(k as int).contains(x) && !x.eq_spec(value)),
        decreases rest.len(),
    {
        let x = rest.remove(0);
        assert(x == orig[k as int]);
        assert(orig.take(k + 1) =~= orig.take(k as int).push(x));
        assert(rest@ =~= orig.skip(k + 1));
        let keep = x.ne(value);
        let ghost before = items@;
        if keep {
            items.push(x);
        }
        proof {
            assert forall|y: T| items@.contains(y) implies orig.take(k + 1).contains(y) by {
                lemma_push_contains(before, x, y);
                lemma_push_contains(orig.take(k as int), x, y);
            }
            if T::obeys_eq_spec() {
                assert forall|y: T|
                    items@.contains(y) == (orig.take(k + 1).contains(y) && !y.eq_spec(
                        value,
                    )) by {
                    lemma_push_contains(before, x, y);
                    lemma_push_contains(orig.take(k as int), x, y);
                }
            }
        }
        k = k + 1;
    }
    assert(orig.take(n as int) =~= orig);
}

/// Removes the values equal to `value` under the filter levels `parts[i..]` (cut after
/// their first `#`) below `node`, dropping children left empty. Returns whether `node`
/// is now empty.
fn remove_rec<T: PartialEq>(node: &mut TrieNode<T>, parts: &Vec<String>, i: usize, value: &T) -> (r: bool)
    requires
        node_wf(*old(node)),
        i <= parts@.len(),
    ensures
        node_wf(*final(node)),
        r == node_empty(*final(node)),
        removed(*old(node), *final(node), removal_key(string_views(parts@).skip(i as int)), *value),
    decreases parts@.len() - i,
{
    let ghost p = string_views(parts@);
    let ghost rest = p.skip(i as int);
    let ghost key = removal_key(rest);
    proof {
        lemma_hash_plus();
    }
    if i == parts.len() {
        assert(key == rest);
        retain_ne(&mut node.exact_matches, value);
        assert forall|f: Seq<Seq<char>>, v: T|
            f != key implies #[trigger] node_has(*node, f, v) == node_has(*old(node), f, v) by {
            if f.len() > 0 && f[0] != hash() && f[0] != plus() {
                lemma_has_same_children(*old(node), *node, f, v);
            }
            if f.len() == 0 {
                assert(f =~= key);
            }
        }
        assert forall|f: Seq<Seq<char>>, v: T| #[trigger] node_has(*node, f, v) implies node_has(*old(node), f, v) by {
            if f.len() > 0 && f[0] != hash() && f[0] != plus() {
                lemma_has_same_children(*old(node), *node, f, v);
            }
        }
        proof { if T::obeys_eq_spec() {
            assert forall|f: Seq<Seq<char>>, v: T|
                #[trigger] node_has(*node, f, v) == (node_has(*old(node), f, v) && !(f == key
                    && v.eq_spec(value))) by {
                if f.len() > 0 && f[0] != hash() && f[0] != plus() {
                    lemma_has_same_children(*old(node), *node, f, v);
                }
                if f.len() == 0 {
                    assert(f =~= key);
                }
            }
        } }
    } else {
        assert(rest[0] == parts@[i as int]@);
        assert(rest.drop_first() =~= p.skip(i + 1));
        if is_level(parts[i].as_str(), '#') {
            assert(key == seq![hash()]);
            retain_ne(&mut node.multi_wildcard_matches, value);
            assert forall|f: Seq<Seq<char>>, v: T|
                f != key implies #[trigger] node_has(*node, f, v) == node_has(*old(node), f, v) by {
                if f.len() > 0 && f[0] != hash() && f[0] != plus() {
                    lemma_has_same_children(*old(node), *node, f, v);
                }
                if f.len() == 1 && f[0] == hash() {
                    assert(f =~= key);
                }
            }
            assert forall|f: Seq<Seq<char>>, v: T| #[trigger] node_has(*node, f, v) implies node_has(*old(node), f, v) by {
                if f.len() > 0 && f[0] != hash() && f[0] != plus() {
                    lemma_has_same_children(*old(node), *node, f, v);
                }
            }
            proof { if T::obeys_eq_spec() {
                assert forall|f: Seq<Seq<char>>, v: T|
                    #[trigger] node_has(*node, f, v) == (node_has(*old(node), f, v) && !(f == key
                        && v.eq_spec(value))) by {
                    if f.len() > 0 && f[0] != hash() && f[0] != plus() {
                        lemma_has_same_children(*old(node), *node, f, v);
                    }
                    if f.len() == 1 && f[0] == hash() {
                        assert(f =~= key);
                    }
                }
            } }
        } else if is_level(parts[i].as_str(), '+') {
            assert(rest[0] == plus());
            assert(key == seq![plus()] + removal_key(p.skip(i + 1)));
            let taken = node.single_wildcard_child.take();
            match taken {
                Some(mut child) => {
                    let ghost before = *child;
                    let emptied = remove_rec(&mut *child, parts, i + 1, value);
                    let ghost after = *child;
                    if !emptied {
                        node.single_wildcard_child = Some(child);
                    }
                    proof {
                        assert forall|f: Seq<Seq<char>>, v: T| f.len() > 0 && f[0] == plus() implies
                            #[trigger] node_has(*node, f, v) == node_has(after, f.drop_first(), v)
                                && ((f == key) == (f.drop_first() == removal_key(p.skip(i + 1)))) by {
                            lemma_key_cons(key, plus(), removal_key(p.skip(i + 1)), f);
                            lemma_has_plus(*node, f, v);
                            if emptied {
                                lemma_empty_has_nothing(after, f.drop_first(), v);
                            }
                        }
                        assert forall|f: Seq<Seq<char>>, v: T| f.len() > 0 && f[0] == plus() implies
                            #[trigger] node_has(*old(node), f, v) == node_has(before, f.drop_first(), v) by {
                            lemma_has_plus(*old(node), f, v);
                        }
                    }
                },
                None => {},
            }
            assert forall|f: Seq<Seq<char>>, v: T|
                f != key implies #[trigger] node_has(*node, f, v) == node_has(*old(node), f, v) by {
                if f.len() > 0 && f[0] != hash() && f[0] != plus() {
                    lemma_has_same_children(*old(node), *node, f, v);
                }
                if f.len() > 0 && f[0] == plus() && old(node).single_wildcard_child is None {
                    lemma_has_plus(*old(node), f, v);
                    lemma_has_plus(*node, f, v);
                }
            }
            assert forall|f: Seq<Seq<char>>, v: T| #[trigger] node_has(*node, f, v) implies node_has(*old(node), f, v) by {
                if f.len() > 0 && f[0] != hash() && f[0] != plus() {
                    lemma_has_same_children(*old(node), *node, f, v);
                }
                if f.len() > 0 && f[0] == plus() && old(node).single_wildcard_child is None {
                    lemma_has_plus(*old(node), f, v);
                    lemma_has_plus(*node, f, v);
                }
            }
            proof { if T::obeys_eq_spec() {
                assert forall|f: Seq<Seq<char>>, v: T|
                    #[trigger] node_has(*node, f, v) == (node_has(*old(node), f, v) && !(f == key
                        && v.eq_spec(value))) by {
                    if f.len() > 0 && f[0] != hash() && f[0] != plus() {
                        lemma_has_same_children(*old(node), *node, f, v);
                    }
                    if f.len() > 0 && f[0] == plus() && old(node).single_wildcard_child is None {
                        lemma_has_plus(*old(node), f, v);
                        lemma_has_plus(*node, f, v);
                    }
                }
            } }
        } else {
            assert(key == seq![rest[0]] + removal_key(p.skip(i + 1)));
            let found = find_child(&node.literal_children, &parts[i]);
            match found {
                Some(j) => {
                    assert(node_wf(old(node).literal_children@[j as int].1));
                    let (k, mut child) = node.literal_children.remove(j);
                    let ghost before = child;
                    let ghost mid = node.literal_children@;
                    let emptied = remove_rec(&mut child, parts, i + 1, value);
                    let ghost after = child;
                    if !emptied {
                        node.literal_children.insert(j, (k, child));
                        assert(node.literal_children@ =~= old(node).literal_children@.update(
                            j as int,
                            (k, after),
                        ));
                    } else {
                        assert(node.literal_children@ =~= old(node).literal_children@.remove(j as int));
                    }
                    proof {
                        assert forall|f: Seq<Seq<char>>, v: T| f.len() > 0 && f[0] == k@ implies
                            #[trigger] node_has(*node, f, v) == node_has(after, f.drop_first(), v)
                                && ((f == key) == (f.drop_first() == removal_key(p.skip(i + 1)))) by {
                            lemma_key_cons(key, k@, removal_key(p.skip(i + 1)), f);
                            if emptied {
                                lemma_empty_has_nothing(after, f.drop_first(), v);
                                assert forall|q: int| 0 <= q < node.literal_children@.len() implies node.literal_children@[q].0@ != f[0] by {
                                    if q < j {
                                        assert(node.literal_children@[q] == old(node).literal_children@[q]);
                                    } else {
                                        assert(node.literal_children@[q] == old(node).literal_children@[q + 1]);
                                    }
                                }
                                lemma_has_no_child(*node, f, v);
                            } else {
                                lemma_has_child(*node, f, v, j as int);
                            }
                        }
                        assert forall|f: Seq<Seq<char>>, v: T| f.len() > 0 && f[0] == k@ implies
                            #[trigger] node_has(*old(node), f, v) == node_has(before, f.drop_first(), v) by {
                            lemma_has_child(*old(node), f, v, j as int);
                        }
                        assert forall|f: Seq<Seq<char>>, v: T|
                            f.len() > 0 && f[0] != k@ && f[0] != hash() && f[0] != plus() implies
                            #[trigger] node_has(*node, f, v) == node_has(*old(node), f, v) by {
                            if exists|m: int| 0 <= m < old(node).literal_children@.len() && old(node).literal_children@[m].0@ == f[0] {
                                let m = choose|m: int| 0 <= m < old(node).literal_children@.len() && old(node).literal_children@[m].0@ == f[0];
                                lemma_has_child(*old(node), f, v, m);
                                if emptied && m > j {
                                    assert(node.literal_children@[m - 1] == old(node).literal_children@[m]);
                                    lemma_has_child(*node, f, v, m - 1);
                                } else {
                                    assert(node.literal_children@[m] == old(node).literal_children@[m]);
                                    lemma_has_child(*node, f, v, m);
                                }
                            } else {
                                lemma_has_no_child(*old(node), f, v);
                                assert forall|q: int| 0 <= q < node.literal_children@.len() implies node.literal_children@[q].0@ != f[0] by {
                                    if emptied && q >= j {
                                        assert(node.literal_children@[q] == old(node).literal_children@[q + 1]);
                                    } else {
                                        assert(node.literal_children@[q].0@ == old(node).literal_children@[q].0@);
                                    }
                                }
                                lemma_has_no_child(*node, f, v);
                            }
                        }
                        assert forall|f: Seq<Seq<char>>| f.len() > 0 && f[0] != k@ implies f != key by {
                            assert(key[0] == k@);
                        }
                    }
                },
                None => {
                    assert forall|f: Seq<Seq<char>>, v: T| f.len() > 0 && f[0] == rest[0] implies
                        !#[trigger] node_has(*old(node), f, v) by {
                        lemma_has_no_child(*old(node), f, v);
                    }
                },
            }
            assert forall|f: Seq<Seq<char>>, v: T|
                f.len() > 0 && (f[0] == hash() || f[0] == plus()) implies
                #[trigger] node_has(*node, f, v) == node_has(*old(node), f, v) by {
                if f[0] == plus() {
                    lemma_has_plus(*old(node), f, v);
                    lemma_has_plus(*node, f, v);
                }
            }
            assert(key[0] == rest[0]);
        }
    }
    node.exact_matches.is_empty() && node.multi_wildcard_matches.is_empty()
        && node.literal_children.is_empty() && node.single_wildcard_child.is_none()
}

/// A value that belongs to a client.
pub trait ClientId {
    /// The identifier of the client that the value belongs to.
    spec fn spec_client_id(&self) -> Seq<char>;

    fn client_id(&self) -> (r: &str)
        ensures
            r@ == self.spec_client_id(),
    ;
}

/// After pruning the values of client `cid`, `after` holds what `before` held for
/// other clients.
pub open spec fn pruned_client<T: ClientId>(
    before: TrieNode<T>,
    after: TrieNode<T>,
    cid: Seq<char>,
) -> bool {
    forall|f: Seq<Seq<char>>, v: T|
        #[trigger] node_has(after, f, v) == (node_has(before, f, v) && v.spec_client_id() != cid)
}

/// Keeps the elements of `items` that belong to another client than `cid`.
fn retain_other_clients<T: ClientId>(items: &mut Vec<T>, cid: &str)
    ensures
        forall|x: T|
            #[trigger] final(items)@.contains(x) == (old(items)@.contains(x) && x.spec_client_id()
                != cid@),
{
    let ghost orig = items@;
    let mut rest: Vec<T> = Vec::new();
    std::mem::swap(&mut rest, items);
    let ghost n = orig.len();
    let len0 = rest.len();
    assert(rest@.len() == n);
    let mut k: usize = 0;
    while rest.len() > 0
        invariant
            n <= usize::MAX,
            rest@ == orig.skip(k as int),
            k <= n,
            n == orig.len(),
            forall|x: T|
                #[trigger] items@.contains(x) == (orig.take(k as int).contains(x)
                    && x.spec_client_id() != cid@),
        decreases rest.len(),
    {
        let x = rest.remove(0);
        assert(x == orig[k as int]);
        assert(orig.take(k + 1) =~= orig.take(k as int).push(x));
        assert(rest@ =~= orig.skip(k + 1));
        let other = !str_eq(x.client_id(), cid);
        let ghost before = items@;
        if other {
            items.push(x);
        }
        proof {
            assert forall|y: T|
                #[trigger] items@.contains(y) == (orig.take(k + 1).contains(y)
                    && y.spec_client_id() != cid@) by {
                assert(before.contains(y) == (orig.take(k as int).contains(y)
                    && y.spec_client_id() != cid@));
                lemma_push_contains(before, x, y);
                lemma_push_contains(orig.take(k as int), x, y);
            }
        }
        k = k + 1;
    }
    assert(orig.take(n as int) =~= orig);
}

/// Removes every value of client `cid` below `node`, dropping children left empty.
/// Returns whether `node` is now empty.
fn remove_client_rec<T: ClientId>(node: &mut TrieNode<T>, cid: &str) -> (r: bool)
    requires
        node_wf(*old(node)),
    ensures
        node_wf(*final(node)),
        r == node_empty(*final(node)),
        pruned_client(*old(node), *final(node), cid@),
    decreases *old(node),
{
    proof {
        lemma_hash_plus();
    }
    retain_other_clients(&mut node.exact_matches, cid);
    retain_other_clients(&mut node.multi_wildcard_matches, cid);
    let ghost ex = node.exact_matches@;
    let ghost mu = node.multi_wildcard_matches@;
    assert(forall|x: T| ex.contains(x) == (old(node).exact_matches@.contains(x) && x.spec_client_id() != cid@));
    assert(forall|x: T| mu.contains(x) == (old(node).multi_wildcard_matches@.contains(x) && x.spec_client_id() != cid@));
    let ghost orig = old(node).literal_children@;
    let mut rest: Vec<(String, TrieNode<T>)> = Vec::new();
    std::mem::swap(&mut rest, &mut node.literal_children);
    let ghost n = orig.len();
    let len0 = rest.len();
    assert(rest@.len() == n);
    let mut kept: Vec<(String, TrieNode<T>)> = Vec::new();
    let ghost mut src: Seq<int> = Seq::empty();
    let mut k: usize = 0;
    while rest.len() > 0
        invariant
            n <= usize::MAX,
            n == orig.len(),
            orig == old(node).literal_children@,
            node_wf(*old(node)),
            rest@ == orig.skip(k as int),
            k <= n,
            src.len() == kept@.len(),
            forall|m: int| 0 <= m < src.len() ==> 0 <= #[trigger] src[m] < k,
            forall|a: int, b: int| 0 <= a < b < src.len() ==> src[a] < src[b],
            forall|m: int|
                0 <= m < kept@.len() ==> (#[trigger] kept@[m]).0@ == orig[src[m]].0@
                    && node_wf(kept@[m].1) && pruned_client(orig[src[m]].1, kept@[m].1, cid@),
            forall|q: int|
                #![trigger orig[q]]
                0 <= q < k ==> (exists|m: int| 0 <= m < src.len() && src[m] == q) || (forall|
                    g: Seq<Seq<char>>,
                    v: T,
                | #[trigger] node_has(orig[q].1, g, v) ==> v.spec_client_id() == cid@),
        decreases rest.len(),
    {
        let (key, mut child) = rest.remove(0);
        assert((key, child) == orig[k as int]);
        assert(rest@ =~= orig.skip(k + 1));
        assert(node_wf(orig[k as int].1));
        assert(decreases_to!(*old(node) => old(node).literal_children));
        assert(decreases_to!(old(node).literal_children => old(node).literal_children@));
        assert(decreases_to!(old(node).literal_children@ => old(node).literal_children@[k as int]));
        assert(decreases_to!(old(node).literal_children@[k as int] => old(node).literal_children@[k as int].1));
        let emptied = remove_client_rec(&mut child, cid);
        let ghost old_src = src;
        if !emptied {
            kept.push((key, child));
            proof {
                src = src.push(k as int);
            }
        } else {
            proof {
                assert forall|g: Seq<Seq<char>>, v: T|
                    #[trigger] node_has(orig[k as int].1, g, v) implies v.spec_client_id() == cid@ by {
                    lemma_empty_has_nothing(child, g, v);
                }
            }
        }
        proof {
            assert forall|q: int|
                #![trigger orig[q]]
                0 <= q < k + 1 implies (exists|m: int| 0 <= m < src.len() && src[m] == q) || (forall|
                    g: Seq<Seq<char>>,
                    v: T,
                | #[trigger] node_has(orig[q].1, g, v) ==> v.spec_client_id() == cid@) by {
                if q < k {
                    if exists|m: int| 0 <= m < old_src.len() && old_src[m] == q {
                        let m = choose|m: int| 0 <= m < old_src.len() && old_src[m] == q;
                        assert(src[m] == q);
                    }
                } else if !emptied {
                    assert(src[src.len() - 1] == q);
                }
            }
        }
        k = k + 1;
    }
    node.literal_children = kept;
    let ghost newch = node.literal_children@;
    let single = node.single_wildcard_child.take();
    let ghost mut c_after: Option<TrieNode<T>> = None;
    match single {
        Some(mut c) => {
            let emptied = remove_client_rec(&mut *c, cid);
            proof {
                c_after = Some(*c);
            }
            if !emptied {
                node.single_wildcard_child = Some(c);
            } else {
                proof {
                    assert forall|g: Seq<Seq<char>>, v: T| !#[trigger] node_has(*c, g, v) by {
                        lemma_empty_has_nothing(*c, g, v);
                    }
                }
            }
        },
        None => {},
    }
    proof {
        assert forall|a: int, b: int| 0 <= a < b < newch.len() implies newch[a].0@ != newch[b].0@ by {
            assert(newch[a].0@ == orig[src[a]].0@);
            assert(newch[b].0@ == orig[src[b]].0@);
        }
        assert forall|a: int| 0 <= a < newch.len() implies newch[a].0@ != plus() && newch[a].0@ != hash() by {
            assert(newch[a].0@ == orig[src[a]].0@);
        }
        assert(node_wf(*node));
        assert forall|f: Seq<Seq<char>>, v: T|
            #[trigger] node_has(*node, f, v) == (node_has(*old(node), f, v) && v.spec_client_id()
                != cid@) by {
            if f.len() == 0 {
                assert(node.exact_matches@ == ex);
                assert(ex.contains(v) == (old(node).exact_matches@.contains(v) && v.spec_client_id() != cid@));
            } else if f[0] == hash() {
                assert(node.multi_wildcard_matches@ == mu);
                assert(mu.contains(v) == (old(node).multi_wildcard_matches@.contains(v) && v.spec_client_id() != cid@));
            } else if f[0] == plus() {
                lemma_has_plus(*node, f, v);
                lemma_has_plus(*old(node), f, v);
                match old(node).single_wildcard_child {
                    Some(c0) => {
                        assert(pruned_client(*c0, c_after.unwrap(), cid@));
                        assert(node_has(c_after.unwrap(), f.drop_first(), v) == (node_has(
                            *c0,
                            f.drop_first(),
                            v,
                        ) && v.spec_client_id() != cid@));
                    },
                    None => {},
                }
            } else {
                if exists|m: int| 0 <= m < newch.len() && newch[m].0@ == f[0] {
                    let m = choose|m: int| 0 <= m < newch.len() && newch[m].0@ == f[0];
                    assert(newch[m].0@ == orig[src[m]].0@);
                    lemma_has_child(*node, f, v, m);
                    lemma_has_child(*old(node), f, v, src[m]);
                } else {
                    lemma_has_no_child(*node, f, v);
                    if exists|q: int| 0 <= q < n && orig[q].0@ == f[0] {
                        let q = choose|q: int| 0 <= q < n && orig[q].0@ == f[0];
                        lemma_has_child(*old(node), f, v, q);
                        if exists|m: int| 0 <= m < src.len() && src[m] == q {
                            let m = choose|m: int| 0 <= m < src.len() && src[m] == q;
                            assert(newch[m].0@ == f[0]);
                        }
                    } else {
                        lemma_has_no_child(*old(node), f, v);
                    }
                }
            }
        }
    }
    node.exact_matches.is_empty() && node.multi_wildcard_matches.is_empty()
        && node.literal_children.is_empty() && node.single_wildcard_child.is_none()
}

impl<T> TrieNode<T> {
    /// Whether this node holds nothing: no values and no children.
    pub fn is_empty(&self) -> (r: bool)
        ensures
            r == node_empty(*self),
    {
        self.exact_matches.is_empty() && self.multi_wildcard_matches.is_empty()
            && self.literal_children.is_empty() && self.single_wildcard_child.is_none()
    }
}

impl<T> TopicTrie<T> {
    /// An empty trie.
    pub fn default() -> (trie: Self)
        ensures
            trie@ == Set::<(Seq<Seq<char>>, T)>::empty(),
    {
        TopicTrie::new()
    }
}

impl<T> TopicTrie<T> {
    #[verifier::type_invariant]
    spec fn inv(self) -> bool {
        node_wf(self.root)
    }

    /// An empty trie.
    pub fn new() -> (trie: Self)
        ensures
            trie@ == Set::<(Seq<Seq<char>>, T)>::empty(),
    {
        let trie = TopicTrie { root: empty_node() };
        assert(trie@ =~= Set::<(Seq<Seq<char>>, T)>::empty());
        trie
    }

    /// Subscribes `value` to the topic filter `topic`. A filter with `#` anywhere but
    /// at its last level is not stored.
    pub fn insert(&mut self, topic: &str, value: T)
        ensures
            well_placed(levels(topic@)) ==> final(self)@ == old(self)@.insert(
                (levels(topic@), value),
            ),
            !well_placed(levels(topic@)) ==> final(self)@ == old(self)@,
    {
        proof {
            use_type_invariant(&*self);
        }
        let parts = split_levels(topic);
        let mut root = empty_node();
        std::mem::swap(&mut root, &mut self.root);
        let ghost before = root;
        insert_rec(&mut root, &parts, 0, value);
        let ghost after = root;
        self.root = root;
        assert(string_views(parts@).skip(0) =~= levels(topic@));
        proof {
            if well_placed(levels(topic@)) {
                assert(self@ =~= old(self)@.insert((levels(topic@), value)));
            } else {
                assert(self@ =~= old(self)@);
            }
        }
    }
}

impl<T: PartialEq> TopicTrie<T> {
    /// The values subscribed through a filter that matches `topic`, each once
    /// (values equal by `==` count as one).
    pub fn find_matches(&self, topic: &str) -> (r: Vec<&T>)
        ensures
            forall|k: int| 0 <= k < r@.len() ==> subscribed(self@, topic@, *r@[k]),
            T::obeys_eq_spec() ==> forall|v: T| subscribed(self@, topic@, v) ==> covered(r@, v),
            no_dup(r@),
    {
        proof {
            use_type_invariant(self);
        }
        let parts = split_levels(topic);
        let mut results: Vec<&T> = Vec::new();
        collect_matches(&self.root, &parts, 0, &mut results);
        assert(string_views(parts@).skip(0) =~= levels(topic@));
        assert forall|v: T| subscribed(self@, topic@, v) == matches_in(self.root, levels(topic@), v) by {
            if subscribed(self@, topic@, v) {
                let f = choose|f: Seq<Seq<char>>|
                    self@.contains((f, v)) && #[trigger] filter_matches(f, levels(topic@));
                assert(node_has(self.root, f, v));
            }
            if matches_in(self.root, levels(topic@), v) {
                let f = choose|f: Seq<Seq<char>>|
                    node_has(self.root, f, v) && #[trigger] filter_matches(f, levels(topic@));
                assert(self@.contains((f, v)));
            }
        }
        results
    }
}

impl<T: PartialEq> TopicTrie<T> {
    /// Unsubscribes the values equal to `value` (by `==`) from the filter `topic`; a
    /// filter is cut just after its first `#`. Nodes left empty are dropped.
    pub fn remove(&mut self, topic: &str, value: &T)
        ensures
            final(self)@.subset_of(old(self)@),
            forall|f: Seq<Seq<char>>, v: T|
                f != removal_key(levels(topic@)) ==> (#[trigger] final(self)@.contains((f, v))
                    == old(self)@.contains((f, v))),
            T::obeys_eq_spec() ==> final(self)@ == old(self)@.filter(
                |p: (Seq<Seq<char>>, T)| !(p.0 == removal_key(levels(topic@)) && p.1.eq_spec(value)),
            ),
    {
        proof {
            use_type_invariant(&*self);
        }
        let parts = split_levels(topic);
        let mut root = empty_node();
        std::mem::swap(&mut root, &mut self.root);
        let ghost before = root;
        remove_rec(&mut root, &parts, 0, value);
        self.root = root;
        assert(string_views(parts@).skip(0) =~= levels(topic@));
        proof {
            assert forall|p: (Seq<Seq<char>>, T)| self@.contains(p) implies old(self)@.contains(p) by {
                assert(node_has(self.root, p.0, p.1));
            }
            assert forall|f: Seq<Seq<char>>, v: T|
                f != removal_key(levels(topic@)) implies (#[trigger] self@.contains((f, v))
                    == old(self)@.contains((f, v))) by {
                assert(node_has(self.root, f, v) == node_has(before, f, v));
            }
            if T::obeys_eq_spec() {
                assert(self@ =~= old(self)@.filter(
                    |p: (Seq<Seq<char>>, T)|
                        !(p.0 == removal_key(levels(topic@)) && p.1.eq_spec(value)),
                ));
            }
        }
    }
}

impl<T: ClientId> TopicTrie<T> {
    /// Unsubscribes every value of client `client_id`, whatever its filter. Nodes left
    /// empty are dropped.
    pub fn remove_client(&mut self, client_id: &str)
        ensures
            final(self)@ == old(self)@.filter(
                |p: (Seq<Seq<char>>, T)| p.1.spec_client_id() != client_id@,
            ),
    {
        proof {
            use_type_invariant(&*self);
        }
        let mut root = empty_node();
        std::mem::swap(&mut root, &mut self.root);
        remove_client_rec(&mut root, client_id);
        self.root = root;
        assert(self@ =~= old(self)@.filter(
            |p: (Seq<Seq<char>>, T)| p.1.spec_client_id() != client_id@,
        ));
    }
}

/// A value subscribed through a filter is found for every topic that the filter
/// matches: after `insert(filter, v)` (of a filter with `#` at most last),
/// `find_matches(topic)` lists `v` for each such topic.
pub proof fn lemma_subscription_found<T>(
    subs: Set<(Seq<Seq<char>>, T)>,
    filter: Seq<char>,
    v: T,
    topic: Seq<char>,
)
    requires
        filter_matches(levels(filter), levels(topic)),
    ensures
        subscribed(subs.insert((levels(filter), v)), topic, v),
{
    assert(subs.insert((levels(filter), v)).contains((levels(filter), v)));
}

/// After a client is removed, no value of it is found for any topic.
pub proof fn lemma_removed_client_not_found<T: ClientId>(
    subs: Set<(Seq<Seq<char>>, T)>,
    client_id: Seq<char>,
    v: T,
    topic: Seq<char>,
)
    requires
        v.spec_client_id() == client_id,
    ensures
        !subscribed(subs.filter(|p: (Seq<Seq<char>>, T)| p.1.spec_client_id() != client_id), topic, v),
{
}

} // verus!
