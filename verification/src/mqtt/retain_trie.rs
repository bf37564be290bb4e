//! Retained messages, kept in a trie of topic levels.
use vstd::prelude::*;

use super::protocol::property::Property;
use super::QoS;
use crate::clock::now_secs;
use crate::operator::trie::lemma_cons_eq;
use crate::operator::utils::lemma_topic_matches_itself;
use crate::topic::{
    filter_matches, hash, is_level, lemma_levels_injective, levels, plus, split_levels, str_eq,
    string_views,
};

verus! {

/// A message kept for the subscribers that come later.
pub struct RetainedMessage {
    pub topic: String,
    pub qos: QoS,
    pub payload: Vec<u8>,
    pub properties: Vec<Property>,
    /// when the message expires, in seconds since the Unix epoch
    pub expiry_at: Option<u64>,
}

/// One level of the trie: the message retained on the topic that ends here, and the
/// next levels, each keyed by its name.
pub struct RetainedTrieNode {
    pub message: Option<RetainedMessage>,
    /// the next levels by name; a list with distinct keys (`tree_wf`), since vstd gives a
    /// `HashMap` or `BTreeMap` meaning only for keys whose hashing or ordering obeys its
    /// laws, which it states for integers and not for `String`
    pub children: Vec<(String, RetainedTrieNode)>,
}

/// The keys of each node's children are distinct.
pub open spec fn tree_wf(n: RetainedTrieNode) -> bool
    decreases n,
{
    &&& forall|i: int, j: int|
        0 <= i < j < n.children@.len() ==> n.children@[i].0@ != n.children@[j].0@
    &&& forall|i: int| 0 <= i < n.children@.len() ==> tree_wf(#[trigger] n.children@[i].1)
}

/// The message retained below `n` on the topic with levels `t`, if any.
pub open spec fn stored(n: RetainedTrieNode, t: Seq<Seq<char>>) -> Option<RetainedMessage>
    decreases t.len(),
{
    if t.len() == 0 {
        n.message
    } else if exists|i: int| 0 <= i < n.children@.len() && (#[trigger] n.children@[i]).0@ == t[0] {
        let i = choose|i: int| 0 <= i < n.children@.len() && (#[trigger] n.children@[i]).0@ == t[0];
        stored(n.children@[i].1, t.drop_first())
    } else {
        None
    }
}

/// A node with no message and no children.
pub open spec fn node_empty(n: RetainedTrieNode) -> bool {
    n.message is None && n.children@.len() == 0
}

proof fn lemma_stored_child(n: RetainedTrieNode, t: Seq<Seq<char>>, j: int)
    requires
        tree_wf(n),
        t.len() > 0,
        0 <= j < n.children@.len(),
        n.children@[j].0@ == t[0],
    ensures
        stored(n, t) == stored(n.children@[j].1, t.drop_first()),
{
    assert(n.children@[j].0@ == t[0]);
    let i = choose|i: int| 0 <= i < n.children@.len() && (#[trigger] n.children@[i]).0@ == t[0];
    if i != j {
        if i < j {
            assert(n.children@[i].0@ != n.children@[j].0@);
        } else {
            assert(n.children@[j].0@ != n.children@[i].0@);
        }
    }
}

proof fn lemma_stored_no_child(n: RetainedTrieNode, t: Seq<Seq<char>>)
    requires
        t.len() > 0,
        forall|i: int| 0 <= i < n.children@.len() ==> (#[trigger] n.children@[i]).0@ != t[0],
    ensures
        stored(n, t) is None,
{
}

proof fn lemma_empty_stores_nothing(n: RetainedTrieNode, t: Seq<Seq<char>>)
    requires
        node_empty(n),
    ensures
        stored(n, t) is None,
{
}

/// Two nodes with the same message whose children agree on every topic agree on
/// every topic.
proof fn lemma_stored_same_child(
    a: RetainedTrieNode,
    b: RetainedTrieNode,
    t: Seq<Seq<char>>,
    j: int,
)
    requires
        tree_wf(a),
        tree_wf(b),
        t.len() > 0,
        0 <= j < a.children@.len(),
        0 <= j < b.children@.len(),
        a.children@[j].0@ == t[0],
        b.children@[j].0@ == t[0],
        stored(a.children@[j].1, t.drop_first()) == stored(b.children@[j].1, t.drop_first()),
    ensures
        stored(a, t) == stored(b, t),
{
    lemma_stored_child(a, t, j);
    lemma_stored_child(b, t, j);
}

/// An empty node.
fn empty_retained_node() -> (n: RetainedTrieNode)
    ensures
        node_empty(n),
        tree_wf(n),
{
    RetainedTrieNode { message: None, children: Vec::new() }
}

/// Where `children` holds the key `key`, if it does.
fn child_position(children: &Vec<(String, RetainedTrieNode)>, key: &str) -> (r: Option<usize>)
    ensures
        match r {
            Some(j) => j < children@.len() && children@[j as int].0@ == key@,
            None => forall|i: int| 0 <= i < children@.len() ==> (#[trigger] children@[i]).0@ != key@,
        },
{
    let mut j: usize = 0;
    while j < children.len()
        invariant
            j <= children@.len(),
            forall|i: int| 0 <= i < j ==> (#[trigger] children@[i]).0@ != key@,
        decreases children.len() - j,
    {
        if str_eq(children[j].0.as_str(), key) {
            return Some(j);
        }
        j = j + 1;
    }
    None
}

/// The message retained below `root` on the topic with levels `parts`.
fn lookup<'a>(root: &'a RetainedTrieNode, parts: &Vec<String>) -> (r: Option<&'a RetainedMessage>)
    requires
        tree_wf(*root),
    ensures
        match r {
            Some(m) => stored(*root, string_views(parts@)) == Some(*m),
            None => stored(*root, string_views(parts@)) is None,
        },
{
    let ghost p = string_views(parts@);
    let mut cur = root;
    let mut i: usize = 0;
    assert(p.skip(0) =~= p);
    while i < parts.len()
        invariant
            i <= parts@.len(),
            p == string_views(parts@),
            tree_wf(*cur),
            stored(*root, p) == stored(*cur, p.skip(i as int)),
        decreases parts@.len() - i,
    {
        let ghost rest = p.skip(i as int);
        assert(rest[0] == parts@[i as int]@);
        assert(rest.drop_first() =~= p.skip(i + 1));
        match child_position(&cur.children, parts[i].as_str()) {
            Some(j) => {
                proof {
                    lemma_stored_child(*cur, rest, j as int);
                }
                cur = &cur.children[j].1;
            },
            None => {
                proof {
                    lemma_stored_no_child(*cur, rest);
                }
                return None;
            },
        }
        i = i + 1;
    }
    match &cur.message {
        Some(m) => Some(m),
        None => None,
    }
}

/// Retains `message` below `node` on the topic with levels `parts[i..]`, making the
/// levels that are missing.
fn insert_rec(node: &mut RetainedTrieNode, parts: &Vec<String>, i: usize, message: RetainedMessage)
    requires
        tree_wf(*old(node)),
        i <= parts@.len(),
    ensures
        tree_wf(*final(node)),
        forall|t: Seq<Seq<char>>|
            #[trigger] stored(*final(node), t) == if t == string_views(parts@).skip(i as int) {
                Some(message)
            } else {
                stored(*old(node), t)
            },
    decreases parts@.len() - i,
{
    let ghost p = string_views(parts@);
    let ghost rest = p.skip(i as int);
    if i == parts.len() {
        node.message = Some(message);
        assert forall|t: Seq<Seq<char>>|
            #[trigger] stored(*node, t) == if t == rest {
                Some(message)
            } else {
                stored(*old(node), t)
            } by {
            if t.len() == 0 {
                assert(t =~= rest);
            } else {
                if exists|q: int|
                    0 <= q < node.children@.len() && (#[trigger] node.children@[q]).0@ == t[0] {
                    let q = choose|q: int|
                        0 <= q < node.children@.len() && (#[trigger] node.children@[q]).0@ == t[0];
                    lemma_stored_same_child(*node, *old(node), t, q);
                }
            }
        }
        return ;
    }
    assert(rest[0] == parts@[i as int]@);
    assert(rest.drop_first() =~= p.skip(i + 1));
    let ghost n = old(node).children@.len() as int;
    match child_position(&node.children, parts[i].as_str()) {
        Some(j) => {
            assert(tree_wf(old(node).children@[j as int].1));
            let (k, mut child) = node.children.remove(j);
            let ghost before = child;
            insert_rec(&mut child, parts, i + 1, message);
            let ghost after = child;
            node.children.insert(j, (k, child));
            assert(node.children@ =~= old(node).children@.update(j as int, (k, after)));
            assert forall|t: Seq<Seq<char>>|
                #[trigger] stored(*node, t) == if t == rest {
                    Some(message)
                } else {
                    stored(*old(node), t)
                } by {
                if t.len() > 0 {
                    if t[0] == k@ {
                        lemma_stored_child(*node, t, j as int);
                        lemma_stored_child(*old(node), t, j as int);
                        if t == rest {
                            assert(t.drop_first() =~= p.skip(i + 1));
                        }
                        if t.drop_first() == p.skip(i + 1) {
                            lemma_cons_eq(t, rest);
                        }
                    } else if exists|q: int|
                        0 <= q < n && (#[trigger] old(node).children@[q]).0@ == t[0] {
                        let q = choose|q: int|
                            0 <= q < n && (#[trigger] old(node).children@[q]).0@ == t[0];
                        lemma_stored_same_child(*node, *old(node), t, q);
                    } else {
                        lemma_stored_no_child(*old(node), t);
                        lemma_stored_no_child(*node, t);
                    }
                }
            }
        },
        None => {
            let mut child = empty_retained_node();
            let ghost before = child;
            insert_rec(&mut child, parts, i + 1, message);
            let ghost after = child;
            let key = parts[i].clone();
            node.children.push((key, child));
            assert(node.children@ =~= old(node).children@.push((key, after)));
            assert forall|t: Seq<Seq<char>>|
                #[trigger] stored(*node, t) == if t == rest {
                    Some(message)
                } else {
                    stored(*old(node), t)
                } by {
                if t.len() > 0 {
                    if t[0] == key@ {
                        lemma_stored_child(*node, t, n);
                        lemma_stored_no_child(*old(node), t);
                        lemma_empty_stores_nothing(before, t.drop_first());
                        if t == rest {
                            assert(t.drop_first() =~= p.skip(i + 1));
                        }
                        if t.drop_first() == p.skip(i + 1) {
                            lemma_cons_eq(t, rest);
                        }
                    } else if exists|q: int|
                        0 <= q < n && (#[trigger] old(node).children@[q]).0@ == t[0] {
                        let q = choose|q: int|
                            0 <= q < n && (#[trigger] old(node).children@[q]).0@ == t[0];
                        lemma_stored_same_child(*node, *old(node), t, q);
                    } else {
                        lemma_stored_no_child(*old(node), t);
                        lemma_stored_no_child(*node, t);
                    }
                }
            }
        },
    }
}

/// Drops the message retained below `node` on the topic with levels `parts[i..]`,
/// and the levels left empty under it; says whether `node` is now empty.
fn remove_rec(node: &mut RetainedTrieNode, parts: &Vec<String>, i: usize) -> (empty: bool)
    requires
        tree_wf(*old(node)),
        i <= parts@.len(),
    ensures
        tree_wf(*final(node)),
        empty == node_empty(*final(node)),
        forall|t: Seq<Seq<char>>|
            #[trigger] stored(*final(node), t) == if t == string_views(parts@).skip(i as int) {
                None
            } else {
                stored(*old(node), t)
            },
    decreases parts@.len() - i,
{
    let ghost p = string_views(parts@);
    let ghost rest = p.skip(i as int);
    if i == parts.len() {
        node.message = None;
        assert forall|t: Seq<Seq<char>>|
            #[trigger] stored(*node, t) == if t == rest {
                None
            } else {
                stored(*old(node), t)
            } by {
            if t.len() == 0 {
                assert(t =~= rest);
            } else {
                if exists|q: int|
                    0 <= q < node.children@.len() && (#[trigger] node.children@[q]).0@ == t[0] {
                    let q = choose|q: int|
                        0 <= q < node.children@.len() && (#[trigger] node.children@[q]).0@ == t[0];
                    lemma_stored_same_child(*node, *old(node), t, q);
                }
            }
        }
        return node.message.is_none() && node.children.len() == 0;
    }
    assert(rest[0] == parts@[i as int]@);
    assert(rest.drop_first() =~= p.skip(i + 1));
    let ghost n = old(node).children@.len() as int;
    match child_position(&node.children, parts[i].as_str()) {
        Some(j) => {
            assert(tree_wf(old(node).children@[j as int].1));
            let (k, mut child) = node.children.remove(j);
            let ghost before = child;
            let child_empty = remove_rec(&mut child, parts, i + 1);
            let ghost after = child;
            if child_empty {
                assert(node.children@ =~= old(node).children@.remove(j as int));
            } else {
                node.children.insert(j, (k, child));
                assert(node.children@ =~= old(node).children@.update(j as int, (k, after)));
            }
            assert forall|t: Seq<Seq<char>>|
                #[trigger] stored(*node, t) == if t == rest {
                    None
                } else {
                    stored(*old(node), t)
                } by {
                if t.len() > 0 {
                    if t[0] == k@ {
                        lemma_stored_child(*old(node), t, j as int);
                        if child_empty {
                            assert forall|q: int| 0 <= q < node.children@.len() implies (
                            #[trigger] node.children@[q]).0@ != t[0] by {
                                if q < j {
                                    assert(node.children@[q] == old(node).children@[q]);
                                } else {
                                    assert(node.children@[q] == old(node).children@[q + 1]);
                                }
                            }
                            lemma_stored_no_child(*node, t);
                            lemma_empty_stores_nothing(after, t.drop_first());
                        } else {
                            lemma_stored_child(*node, t, j as int);
                        }
                        if t == rest {
                            assert(t.drop_first() =~= p.skip(i + 1));
                        }
                        if t.drop_first() == p.skip(i + 1) {
                            lemma_cons_eq(t, rest);
                        }
                    } else if exists|q: int|
                        0 <= q < n && (#[trigger] old(node).children@[q]).0@ == t[0] {
                        let q = choose|q: int|
                            0 <= q < n && (#[trigger] old(node).children@[q]).0@ == t[0];
                        lemma_stored_child(*old(node), t, q);
                        if child_empty {
                            let q2 = if q < j {
                                q
                            } else {
                                q - 1
                            };
                            assert(node.children@[q2] == old(node).children@[q]);
                            lemma_stored_child(*node, t, q2);
                        } else {
                            lemma_stored_child(*node, t, q);
                        }
                    } else {
                        lemma_stored_no_child(*old(node), t);
                        assert forall|q: int| 0 <= q < node.children@.len() implies (
                        #[trigger] node.children@[q]).0@ != t[0] by {
                            if child_empty {
                                if q < j {
                                    assert(node.children@[q] == old(node).children@[q]);
                                } else {
                                    assert(node.children@[q] == old(node).children@[q + 1]);
                                }
                            } else {
                                assert(node.children@[q].0 == old(node).children@[q].0);
                            }
                        }
                        lemma_stored_no_child(*node, t);
                    }
                }
            }
        },
        None => {
            assert forall|t: Seq<Seq<char>>|
                #[trigger] stored(*node, t) == if t == rest {
                    None
                } else {
                    stored(*old(node), t)
                } by {
                if t == rest {
                    lemma_stored_no_child(*node, t);
                }
            }
        },
    }
    node.message.is_none() && node.children.len() == 0
}

/// The topics of `gc`, each under the first level `key`.
pub open spec fn under(key: Seq<char>, gc: Seq<Seq<Seq<char>>>) -> Seq<Seq<Seq<char>>> {
    gc.map_values(|t: Seq<Seq<char>>| seq![key] + t)
}

/// `t` is empty or starts with the key of one of the first `j` children of `n`.
pub open spec fn first_in(n: RetainedTrieNode, j: int, t: Seq<Seq<char>>) -> bool {
    t.len() == 0 || exists|q: int| 0 <= q < j && (#[trigger] n.children@[q]).0@ == t[0]
}

proof fn lemma_under_contains(key: Seq<char>, gc: Seq<Seq<Seq<char>>>, t: Seq<Seq<char>>)
    ensures
        under(key, gc).contains(t) == (t.len() > 0 && t[0] == key && gc.contains(t.drop_first())),
{
    if under(key, gc).contains(t) {
        let k = choose|k: int| 0 <= k < under(key, gc).len() && under(key, gc)[k] == t;
        assert(t.drop_first() =~= gc[k]);
    }
    if t.len() > 0 && t[0] == key && gc.contains(t.drop_first()) {
        let k = choose|k: int| 0 <= k < gc.len() && gc[k] == t.drop_first();
        assert(under(key, gc)[k] =~= t);
    }
}

/// Appending the topics found below child `j` of `n`, each under its key, to topics
/// found below the children before it keeps them distinct and starting at a key of
/// the children so far.
proof fn lemma_add_child_topics(n: RetainedTrieNode, j: int, g: Seq<Seq<Seq<char>>>, gc: Seq<Seq<Seq<char>>>)
    requires
        tree_wf(n),
        0 <= j < n.children@.len(),
        g.no_duplicates(),
        gc.no_duplicates(),
        forall|k: int| 0 <= k < g.len() ==> first_in(n, j, #[trigger] g[k]),
    ensures
        (g + under(n.children@[j].0@, gc)).no_duplicates(),
        forall|k: int|
            0 <= k < (g + under(n.children@[j].0@, gc)).len() ==> first_in(
                n,
                j + 1,
                #[trigger] (g + under(n.children@[j].0@, gc))[k],
            ),
        forall|t: Seq<Seq<char>>|
            #[trigger] (g + under(n.children@[j].0@, gc)).contains(t) == (g.contains(t) || (t.len()
                > 0 && t[0] == n.children@[j].0@ && gc.contains(t.drop_first()))),
{
    let key = n.children@[j].0@;
    let u = under(key, gc);
    let g2 = g + u;
    assert forall|a: int, b: int| 0 <= a < g2.len() && 0 <= b < g2.len() && a != b implies g2[a]
        != g2[b] by {
        if a < g.len() && b < g.len() {
        } else if a >= g.len() && b >= g.len() {
            assert(g2[a].drop_first() =~= gc[a - g.len()]);
            assert(g2[b].drop_first() =~= gc[b - g.len()]);
        } else {
            let (x, y) = if a < g.len() {
                (a, b)
            } else {
                (b, a)
            };
            assert(first_in(n, j, g[x]));
            assert(g2[y][0] == key);
            if g2[x].len() > 0 && g2[x] == g2[y] {
                let q = choose|q: int| 0 <= q < j && (#[trigger] n.children@[q]).0@ == g[x][0];
                assert(n.children@[q].0@ != n.children@[j].0@);
            }
        }
    }
    assert forall|k: int| 0 <= k < g2.len() implies first_in(n, j + 1, #[trigger] g2[k]) by {
        if k < g.len() {
            assert(first_in(n, j, g[k]));
            if g[k].len() > 0 {
                let q = choose|q: int| 0 <= q < j && (#[trigger] n.children@[q]).0@ == g[k][0];
                assert(0 <= q < j + 1 && n.children@[q].0@ == g2[k][0]);
            }
        } else {
            assert(g2[k][0] == key);
            assert(n.children@[j].0@ == g2[k][0]);
        }
    }
    assert forall|t: Seq<Seq<char>>|
        #[trigger] g2.contains(t) == (g.contains(t) || (t.len() > 0 && t[0] == key
            && gc.contains(t.drop_first()))) by {
        lemma_under_contains(key, gc, t);
        if g2.contains(t) {
            let k = choose|k: int| 0 <= k < g2.len() && g2[k] == t;
            if k < g.len() {
                assert(g[k] == t);
            } else {
                assert(u[k - g.len()] == t);
            }
        }
        if g.contains(t) {
            let k = choose|k: int| 0 <= k < g.len() && g[k] == t;
            assert(g2[k] == t);
        }
        if u.contains(t) {
            let k = choose|k: int| 0 <= k < u.len() && u[k] == t;
            assert(g2[g.len() + k] == t);
        }
    }
}

/// Collects every message retained below `node`; gives the topics (levels below
/// `node`) they are retained on.
fn collect_all<'a>(node: &'a RetainedTrieNode, out: &mut Vec<&'a RetainedMessage>) -> (g: Ghost<
    Seq<Seq<Seq<char>>>,
>)
    requires
        tree_wf(*node),
    ensures
        final(out)@.len() == old(out)@.len() + g@.len(),
        forall|k: int| 0 <= k < old(out)@.len() ==> final(out)@[k] == old(out)@[k],
        forall|k: int|
            0 <= k < g@.len() ==> stored(*node, #[trigger] g@[k]) == Some(
                *final(out)@[old(out)@.len() + k],
            ),
        g@.no_duplicates(),
        forall|t: Seq<Seq<char>>| #[trigger] g@.contains(t) == (stored(*node, t) is Some),
    decreases *node,
{
    let ghost o0 = out@.len();
    let ghost o = out@;
    let ghost mut g: Seq<Seq<Seq<char>>> = Seq::empty();
    match &node.message {
        Some(m) => {
            out.push(m);
            proof {
                g = seq![Seq::<Seq<char>>::empty()];
            }
        },
        None => {},
    }
    assert forall|t: Seq<Seq<char>>|
        #[trigger] g.contains(t) == (stored(*node, t) is Some && first_in(*node, 0, t)) by {
        if t.len() == 0 {
            assert(t =~= Seq::<Seq<char>>::empty());
        }
        if g.contains(t) {
            assert(g[0] == t);
        }
    }
    let mut j: usize = 0;
    while j < node.children.len()
        invariant
            tree_wf(*node),
            j <= node.children@.len(),
            out@.len() == o0 + g.len(),
            o0 == o.len(),
            forall|k: int| 0 <= k < o0 ==> out@[k] == o[k],
            forall|k: int| 0 <= k < g.len() ==> stored(*node, #[trigger] g[k]) == Some(*out@[o0 + k]),
            g.no_duplicates(),
            forall|k: int| 0 <= k < g.len() ==> first_in(*node, j as int, #[trigger] g[k]),
            forall|t: Seq<Seq<char>>|
                #[trigger] g.contains(t) == (stored(*node, t) is Some && first_in(*node, j as int, t)),
        decreases node.children@.len() - j,
    {
        let ghost o1 = out@;
        assert(tree_wf(node.children@[j as int].1));
        let gc = collect_all(&node.children[j].1, out);
        proof {
            let key = node.children@[j as int].0@;
            lemma_add_child_topics(*node, j as int, g, gc@);
            let g2 = g + under(key, gc@);
            assert forall|k: int| 0 <= k < g2.len() implies stored(*node, #[trigger] g2[k]) == Some(
                *out@[o0 + k],
            ) by {
                if k < g.len() {
                    assert(out@[o0 + k] == o1[o0 + k]);
                } else {
                    let t = g2[k];
                    assert(t.drop_first() =~= gc@[k - g.len()]);
                    lemma_stored_child(*node, t, j as int);
                }
            }
            assert forall|t: Seq<Seq<char>>|
                #[trigger] g2.contains(t) == (stored(*node, t) is Some && first_in(
                    *node,
                    j + 1,
                    t,
                )) by {
                if t.len() > 0 && t[0] == key {
                    lemma_stored_child(*node, t, j as int);
                }
                if t.len() > 0 && first_in(*node, j + 1, t) && t[0] != key {
                    let q = choose|q: int| 0 <= q < j + 1 && (#[trigger] node.children@[q]).0@ == t[0];
                    assert(first_in(*node, j as int, t));
                }
                if t.len() > 0 && t[0] == key && !first_in(*node, j as int, t) {
                } else if t.len() > 0 && t[0] == key {
                    let q = choose|q: int| 0 <= q < j && (#[trigger] node.children@[q]).0@ == t[0];
                    assert(node.children@[q].0@ != node.children@[j as int].0@);
                }
            }
            g = g2;
        }
        j = j + 1;
    }
    proof {
        assert forall|t: Seq<Seq<char>>| stored(*node, t) is Some implies first_in(
            *node,
            j as int,
            t,
        ) by {
            if t.len() > 0 {
                if !(exists|q: int|
                    0 <= q < node.children@.len() && (#[trigger] node.children@[q]).0@ == t[0]) {
                    lemma_stored_no_child(*node, t);
                }
            }
        }
    }
    Ghost(g)
}

/// Collects the messages retained below `node` on the topics that the filter levels
/// `fparts[i..]` match; gives those topics (levels below `node`).
fn find_rec<'a>(
    node: &'a RetainedTrieNode,
    fparts: &Vec<String>,
    i: usize,
    out: &mut Vec<&'a RetainedMessage>,
) -> (g: Ghost<Seq<Seq<Seq<char>>>>)
    requires
        tree_wf(*node),
        i <= fparts@.len(),
    ensures
        final(out)@.len() == old(out)@.len() + g@.len(),
        forall|k: int| 0 <= k < old(out)@.len() ==> final(out)@[k] == old(out)@[k],
        forall|k: int|
            0 <= k < g@.len() ==> stored(*node, #[trigger] g@[k]) == Some(
                *final(out)@[old(out)@.len() + k],
            ),
        g@.no_duplicates(),
        forall|t: Seq<Seq<char>>|
            #[trigger] g@.contains(t) == (stored(*node, t) is Some && filter_matches(
                string_views(fparts@).skip(i as int),
                t,
            )),
    decreases fparts@.len() - i,
{
    let ghost f = string_views(fparts@).skip(i as int);
    let ghost o0 = out@.len();
    let ghost o = out@;
    if i == fparts.len() {
        let ghost mut g: Seq<Seq<Seq<char>>> = Seq::empty();
        match &node.message {
            Some(m) => {
                out.push(m);
                proof {
                    g = seq![Seq::<Seq<char>>::empty()];
                }
            },
            None => {},
        }
        assert forall|t: Seq<Seq<char>>|
            #[trigger] g.contains(t) == (stored(*node, t) is Some && filter_matches(f, t)) by {
            assert(f.len() == 0);
            if t.len() == 0 {
                assert(t =~= Seq::<Seq<char>>::empty());
                if node.message is Some {
                    assert(g[0] == t);
                }
            }
            if g.contains(t) {
                assert(g[0] == t);
            }
        }
        return Ghost(g);
    }
    assert(f[0] == fparts@[i as int]@);
    assert(f.drop_first() =~= string_views(fparts@).skip(i + 1));
    if is_level(fparts[i].as_str(), '#') {
        assert(f[0] == hash());
        return collect_all(node, out);
    }
    if is_level(fparts[i].as_str(), '+') {
        assert(f[0] == plus());
        let ghost rest = f.drop_first();
        let ghost mut g: Seq<Seq<Seq<char>>> = Seq::empty();
        let mut j: usize = 0;
        while j < node.children.len()
            invariant
                tree_wf(*node),
                i < fparts.len(),
                f == string_views(fparts@).skip(i as int),
                rest == string_views(fparts@).skip(i + 1),
                f[0] == plus(),
                j <= node.children@.len(),
                out@.len() == o0 + g.len(),
                o0 == o.len(),
                forall|k: int| 0 <= k < o0 ==> out@[k] == o[k],
                forall|k: int|
                    0 <= k < g.len() ==> stored(*node, #[trigger] g[k]) == Some(*out@[o0 + k]),
                g.no_duplicates(),
                forall|k: int| 0 <= k < g.len() ==> first_in(*node, j as int, #[trigger] g[k]),
                forall|t: Seq<Seq<char>>|
                    #[trigger] g.contains(t) == (stored(*node, t) is Some && t.len() > 0
                        && filter_matches(rest, t.drop_first()) && first_in(*node, j as int, t)),
            decreases node.children@.len() - j,
        {
            let ghost o1 = out@;
            assert(tree_wf(node.children@[j as int].1));
            let gc = find_rec(&node.children[j].1, fparts, i + 1, out);
            proof {
                let key = node.children@[j as int].0@;
                lemma_add_child_topics(*node, j as int, g, gc@);
                let g2 = g + under(key, gc@);
                assert forall|k: int| 0 <= k < g2.len() implies stored(*node, #[trigger] g2[k])
                    == Some(*out@[o0 + k]) by {
                    if k < g.len() {
                        assert(out@[o0 + k] == o1[o0 + k]);
                    } else {
                        let t = g2[k];
                        assert(t.drop_first() =~= gc@[k - g.len()]);
                        lemma_stored_child(*node, t, j as int);
                    }
                }
                assert forall|t: Seq<Seq<char>>|
                    #[trigger] g2.contains(t) == (stored(*node, t) is Some && t.len() > 0
                        && filter_matches(rest, t.drop_first()) && first_in(*node, j + 1, t)) by {
                    if t.len() > 0 && t[0] == key {
                        lemma_stored_child(*node, t, j as int);
                    }
                    if t.len() > 0 && first_in(*node, j + 1, t) && t[0] != key {
                        let q = choose|q: int|
                            0 <= q < j + 1 && (#[trigger] node.children@[q]).0@ == t[0];
                        assert(first_in(*node, j as int, t));
                    }
                    if t.len() > 0 && t[0] == key && first_in(*node, j as int, t) {
                        let q = choose|q: int| 0 <= q < j && (#[trigger] node.children@[q]).0@ == t[0];
                        assert(node.children@[q].0@ != node.children@[j as int].0@);
                    }
                }
                g = g2;
            }
            j = j + 1;
        }
        proof {
            assert forall|t: Seq<Seq<char>>|
                #[trigger] g.contains(t) == (stored(*node, t) is Some && filter_matches(f, t)) by {
                if t.len() > 0 && stored(*node, t) is Some {
                    if !(exists|q: int|
                        0 <= q < node.children@.len() && (#[trigger] node.children@[q]).0@ == t[0]) {
                        lemma_stored_no_child(*node, t);
                    }
                }
            }
        }
        return Ghost(g);
    }
    assert(f[0] != hash() && f[0] != plus());
    match child_position(&node.children, fparts[i].as_str()) {
        Some(j) => {
            assert(tree_wf(node.children@[j as int].1));
            let gc = find_rec(&node.children[j].1, fparts, i + 1, out);
            let ghost key = node.children@[j as int].0@;
            let ghost g = under(key, gc@);
            proof {
                assert(first_in(*node, 0, Seq::empty()));
                lemma_add_child_topics(*node, j as int, Seq::empty(), gc@);
                assert(Seq::<Seq<Seq<char>>>::empty() + g =~= g);
                assert forall|k: int| 0 <= k < g.len() implies stored(*node, #[trigger] g[k]) == Some(
                    *out@[o0 + k],
                ) by {
                    let t = g[k];
                    assert(t.drop_first() =~= gc@[k]);
                    lemma_stored_child(*node, t, j as int);
                }
                assert forall|t: Seq<Seq<char>>|
                    #[trigger] g.contains(t) == (stored(*node, t) is Some && filter_matches(f, t)) by {
                    lemma_under_contains(key, gc@, t);
                    if t.len() > 0 && t[0] == key {
                        lemma_stored_child(*node, t, j as int);
                    }
                }
            }
            Ghost(g)
        },
        None => {
            proof {
                assert forall|t: Seq<Seq<char>>|
                    #[trigger] Seq::<Seq<Seq<char>>>::empty().contains(t) == (stored(*node, t) is Some
                        && filter_matches(f, t)) by {
                    if t.len() > 0 && t[0] == f[0] {
                        lemma_stored_no_child(*node, t);
                    }
                }
            }
            Ghost(Seq::empty())
        },
    }
}

/// Whether `m` has expired at `now`.
pub open spec fn expired(m: RetainedMessage, now: u64) -> bool {
    match m.expiry_at {
        Some(e) => e <= now,
        None => false,
    }
}

/// The messages of `m` that have not expired at `now`.
pub open spec fn unexpired(m: Map<Seq<Seq<char>>, RetainedMessage>, now: u64) -> Map<
    Seq<Seq<char>>,
    RetainedMessage,
> {
    m.restrict(m.dom().filter(|t: Seq<Seq<char>>| !expired(m[t], now)))
}

/// The expiry index lists, once per topic, the expiry time of each retained message
/// that has one.
pub open spec fn index_ok(ix: Seq<(u64, String)>, root: RetainedTrieNode) -> bool {
    &&& forall|k: int|
        0 <= k < ix.len() ==> (stored(root, levels(#[trigger] ix[k].1@)) matches Some(m)
            && m.expiry_at == Some(ix[k].0))
    &&& forall|t: Seq<Seq<char>>|
        (#[trigger] stored(root, t) matches Some(m) && m.expiry_at is Some) ==> exists|k: int|
            0 <= k < ix.len() && levels(#[trigger] ix[k].1@) == t
    &&& forall|a: int, b: int| 0 <= a < b < ix.len() ==> ix[a].1@ != ix[b].1@
}

/// Whether the index `ix` has an entry for `topic` that has expired at `now`.
pub open spec fn expired_entry(ix: Seq<(u64, String)>, now: u64, topic: Seq<char>) -> bool {
    exists|a: int| 0 <= a < ix.len() && ix[a].0 <= now && ix[a].1@ == topic
}

/// The retained messages, each on its topic, with an index of their expiry times.
pub struct RetainedTrie {
    root: RetainedTrieNode,
    /// each expiring message's expiry time and topic, once per topic (`index_ok`); a
    /// list rather than a `BTreeSet`, since vstd gives a `BTreeSet` meaning only for
    /// keys whose ordering obeys its laws, which it states for integers and tuples of
    /// them and not for `String`
    expiry_index: Vec<(u64, String)>,
}

impl View for RetainedTrie {
    type V = Map<Seq<Seq<char>>, RetainedMessage>;

    /// The retained message of each topic (as levels).
    closed spec fn view(&self) -> Map<Seq<Seq<char>>, RetainedMessage> {
        Map::new(|t: Seq<Seq<char>>| stored(self.root, t) is Some, |t: Seq<Seq<char>>| stored(self.root, t)->0)
    }
}

/// Whether the entries of `ix` have distinct topics.
pub open spec fn distinct_topics(ix: Seq<(u64, String)>) -> bool {
    forall|a: int, b: int| 0 <= a < b < ix.len() ==> ix[a].1@ != ix[b].1@
}

/// Drops the entry `(e, topic)` from the index, keeping the others in order.
fn drop_entry(ix: &mut Vec<(u64, String)>, e: u64, topic: &str)
    ensures
        forall|q: int|
            0 <= q < final(ix)@.len() ==> old(ix)@.contains(#[trigger] final(ix)@[q]) && !(
            final(ix)@[q].0 == e && final(ix)@[q].1@ == topic@),
        forall|a: int|
            0 <= a < old(ix)@.len() && !(old(ix)@[a].0 == e && old(ix)@[a].1@ == topic@)
                ==> final(ix)@.contains(#[trigger] old(ix)@[a]),
        distinct_topics(old(ix)@) ==> distinct_topics(final(ix)@),
{
    let mut rest: Vec<(u64, String)> = Vec::new();
    std::mem::swap(&mut rest, ix);
    let ghost orig = rest@;
    let ghost mut idx: Seq<int> = Seq::empty();
    assert(orig.len() == rest.len());
    let mut i: usize = 0;
    while rest.len() > 0
        invariant
            i + rest@.len() == orig.len(),
            orig.len() <= usize::MAX,
            rest@ == orig.skip(i as int),
            idx.len() == ix@.len(),
            forall|q: int| 0 <= q < idx.len() ==> 0 <= #[trigger] idx[q] < i && ix@[q] == orig[idx[q]],
            forall|a: int, b: int| 0 <= a < b < idx.len() ==> #[trigger] idx[a] < #[trigger] idx[b],
            forall|q: int| 0 <= q < ix@.len() ==> !(#[trigger] ix@[q].0 == e && ix@[q].1@ == topic@),
            forall|a: int|
                0 <= a < i && !(orig[a].0 == e && orig[a].1@ == topic@) ==> ix@.contains(
                    #[trigger] orig[a],
                ),
        decreases rest.len(),
    {
        let p = rest.remove(0);
        proof {
            assert(p == orig[i as int]);
            assert(rest@ =~= orig.skip(i + 1));
        }
        if !(p.0 == e && str_eq(p.1.as_str(), topic)) {
            let ghost before = ix@;
            ix.push(p);
            proof {
                idx = idx.push(i as int);
                assert forall|a: int|
                    0 <= a < i + 1 && !(orig[a].0 == e && orig[a].1@ == topic@) implies ix@.contains(
                    #[trigger] orig[a],
                ) by {
                    if a < i {
                        let q = choose|q: int| 0 <= q < before.len() && before[q] == orig[a];
                        assert(ix@[q] == orig[a]);
                    } else {
                        assert(ix@[before.len() as int] == orig[a]);
                    }
                }
            }
        }
        i = i + 1;
    }
    proof {
        assert forall|q: int| 0 <= q < ix@.len() implies orig.contains(#[trigger] ix@[q]) by {
            assert(orig[idx[q]] == ix@[q]);
        }
        if distinct_topics(orig) {
            assert forall|a: int, b: int| 0 <= a < b < ix@.len() implies ix@[a].1@ != ix@[b].1@ by {
                assert(idx[a] < idx[b]);
            }
        }
    }
}

impl RetainedTrie {
    /// The trie is well formed and its index is right.
    pub closed spec fn wf(&self) -> bool {
        tree_wf(self.root) && index_ok(self.expiry_index@, self.root)
    }

    /// A trie with no retained message.
    pub fn new() -> (r: Self)
        ensures
            r.wf(),
            r@ == Map::<Seq<Seq<char>>, RetainedMessage>::empty(),
    {
        let r = RetainedTrie { root: empty_retained_node(), expiry_index: Vec::new() };
        assert(r@ =~= Map::<Seq<Seq<char>>, RetainedMessage>::empty());
        r
    }

    /// The message retained on `topic`, if any.
    pub fn get_message(&self, topic: &str) -> (r: Option<&RetainedMessage>)
        requires
            self.wf(),
        ensures
            match r {
                Some(m) => self@.contains_key(levels(topic@)) && self@[levels(topic@)] == *m,
                None => !self@.contains_key(levels(topic@)),
            },
    {
        let parts = split_levels(topic);
        lookup(&self.root, &parts)
    }

    /// Retains `message` on `topic`, in place of the message retained there before.
    pub fn insert(&mut self, topic: &str, message: RetainedMessage)
        requires
            old(self).wf(),
        ensures
            final(self).wf(),
            final(self)@ == old(self)@.insert(levels(topic@), message),
    {
        let parts = split_levels(topic);
        let ghost k = levels(topic@);
        let ghost ix0 = self.expiry_index@;
        let old_expiry = match lookup(&self.root, &parts) {
            Some(m) => m.expiry_at,
            None => None,
        };
        if let Some(e) = old_expiry {
            drop_entry(&mut self.expiry_index, e, topic);
        }
        let new_expiry = message.expiry_at;
        let ghost msg = message;
        let ghost before = self.root;
        insert_rec(&mut self.root, &parts, 0, message);
        assert(string_views(parts@).skip(0) =~= k);
        let ghost ix1 = self.expiry_index@;
        if let Some(e2) = new_expiry {
            self.expiry_index.push((e2, topic.to_owned()));
        }
        proof {
            let ix = self.expiry_index@;
            // the entries kept from before are those of other topics
            assert forall|q: int| 0 <= q < ix1.len() implies ix1[q].1@ != topic@ && ix0.contains(
                #[trigger] ix1[q],
            ) by {
                if old_expiry is None {
                    assert(ix0[q] == ix1[q]);
                }
                let a = choose|a: int| 0 <= a < ix0.len() && ix0[a] == ix1[q];
                assert(stored(before, levels(ix0[a].1@)) matches Some(m) && m.expiry_at == Some(
                    ix0[a].0,
                ));
            }
            assert forall|q: int| 0 <= q < ix.len() implies (stored(
                self.root,
                levels(#[trigger] ix[q].1@),
            ) matches Some(m) && m.expiry_at == Some(ix[q].0)) by {
                if q < ix1.len() {
                    assert(ix[q] == ix1[q]);
                    assert(ix0.contains(ix1[q]));
                    if levels(ix1[q].1@) == k {
                        lemma_levels_injective(ix1[q].1@, topic@);
                    }
                    let a = choose|a: int| 0 <= a < ix0.len() && ix0[a] == ix1[q];
                    assert(stored(before, levels(ix0[a].1@)) matches Some(m) && m.expiry_at == Some(
                        ix0[a].0,
                    ));
                } else {
                    assert(stored(self.root, k) == Some(msg));
                }
            }
            assert forall|t: Seq<Seq<char>>|
                (#[trigger] stored(self.root, t) matches Some(m) && m.expiry_at is Some) implies exists|
                q: int,
            | 0 <= q < ix.len() && levels(#[trigger] ix[q].1@) == t by {
                if t == k {
                    assert(levels(ix[ix1.len() as int].1@) == t);
                } else {
                    assert(stored(before, t) == stored(self.root, t));
                    let a = choose|a: int| 0 <= a < ix0.len() && levels(#[trigger] ix0[a].1@) == t;
                    assert(ix0[a].1@ != topic@);
                    if old_expiry is None {
                        assert(ix1[a] == ix0[a]);
                    }
                    assert(ix1.contains(ix0[a]));
                    let q = choose|q: int| 0 <= q < ix1.len() && ix1[q] == ix0[a];
                    assert(ix[q] == ix1[q]);
                }
            }
            assert(distinct_topics(ix1));
            assert forall|a: int, b: int| 0 <= a < b < ix.len() implies ix[a].1@ != ix[b].1@ by {
                if b < ix1.len() {
                    assert(ix[a] == ix1[a] && ix[b] == ix1[b]);
                } else {
                    assert(ix[a] == ix1[a]);
                }
            }
            assert(self@ =~= old(self)@.insert(k, msg));
        }
    }

    /// Drops the message retained on `topic`, and the levels left empty.
    pub fn remove(&mut self, topic: &str)
        requires
            old(self).wf(),
        ensures
            final(self).wf(),
            final(self)@ == old(self)@.remove(levels(topic@)),
    {
        let parts = split_levels(topic);
        let ghost k = levels(topic@);
        let ghost ix0 = self.expiry_index@;
        let old_expiry = match lookup(&self.root, &parts) {
            Some(m) => m.expiry_at,
            None => None,
        };
        if let Some(e) = old_expiry {
            drop_entry(&mut self.expiry_index, e, topic);
        }
        let ghost before = self.root;
        remove_rec(&mut self.root, &parts, 0);
        assert(string_views(parts@).skip(0) =~= k);
        proof {
            let ix = self.expiry_index@;
            assert forall|q: int| 0 <= q < ix.len() implies ix[q].1@ != topic@ && ix0.contains(
                #[trigger] ix[q],
            ) by {
                if old_expiry is None {
                    assert(ix0[q] == ix[q]);
                }
                let a = choose|a: int| 0 <= a < ix0.len() && ix0[a] == ix[q];
                assert(stored(before, levels(ix0[a].1@)) matches Some(m) && m.expiry_at == Some(
                    ix0[a].0,
                ));
            }
            assert forall|q: int| 0 <= q < ix.len() implies (stored(
                self.root,
                levels(#[trigger] ix[q].1@),
            ) matches Some(m) && m.expiry_at == Some(ix[q].0)) by {
                assert(ix0.contains(ix[q]));
                if levels(ix[q].1@) == k {
                    lemma_levels_injective(ix[q].1@, topic@);
                }
                let a = choose|a: int| 0 <= a < ix0.len() && ix0[a] == ix[q];
                assert(stored(before, levels(ix0[a].1@)) matches Some(m) && m.expiry_at == Some(
                    ix0[a].0,
                ));
            }
            assert forall|t: Seq<Seq<char>>|
                (#[trigger] stored(self.root, t) matches Some(m) && m.expiry_at is Some) implies exists|
                q: int,
            | 0 <= q < ix.len() && levels(#[trigger] ix[q].1@) == t by {
                assert(t != k);
                assert(stored(before, t) == stored(self.root, t));
                let a = choose|a: int| 0 <= a < ix0.len() && levels(#[trigger] ix0[a].1@) == t;
                assert(ix0[a].1@ != topic@);
                if old_expiry is None {
                    assert(ix[a] == ix0[a]);
                }
                assert(ix.contains(ix0[a]));
            }
            assert(self@ =~= old(self)@.remove(k));
        }
    }

    /// The messages retained on the topics that the filter `filter` matches, each
    /// once, in no particular order.
    pub fn find_matches_for_filter(&self, filter: &str) -> (r: Vec<&RetainedMessage>)
        requires
            self.wf(),
        ensures
            exists|ts: Seq<Seq<Seq<char>>>|
                {
                    &&& ts.len() == r@.len()
                    &&& ts.no_duplicates()
                    &&& forall|t: Seq<Seq<char>>|
                        #[trigger] ts.contains(t) == (self@.contains_key(t) && filter_matches(
                            levels(filter@),
                            t,
                        ))
                    &&& forall|k: int| 0 <= k < ts.len() ==> self@[#[trigger] ts[k]] == *r@[k]
                },
    {
        let fparts = split_levels(filter);
        let mut out: Vec<&RetainedMessage> = Vec::new();
        let g = find_rec(&self.root, &fparts, 0, &mut out);
        assert(string_views(fparts@).skip(0) =~= levels(filter@));
        assert forall|k: int| 0 <= k < g@.len() implies self@[#[trigger] g@[k]] == *out@[k] by {
            assert(stored(self.root, g@[k]) == Some(*out@[k]));
        }
        out
    }

    /// Drops the messages that have expired at `now` (in seconds since the Unix
    /// epoch).
    pub fn purge_expired_at(&mut self, now: u64)
        requires
            old(self).wf(),
        ensures
            final(self).wf(),
            final(self)@ == unexpired(old(self)@, now),
    {
        let ghost ix = self.expiry_index@;
        let mut topics: Vec<String> = Vec::new();
        let mut i: usize = 0;
        while i < self.expiry_index.len()
            invariant
                ix == self.expiry_index@,
                i <= ix.len(),
                forall|q: int|
                    0 <= q < topics@.len() ==> expired_entry(ix, now, (#[trigger] topics@[q])@),
                forall|a: int|
                    0 <= a < i && (#[trigger] ix[a]).0 <= now ==> exists|q: int|
                        0 <= q < topics@.len() && topics@[q]@ == ix[a].1@,
            decreases ix.len() - i,
        {
            if self.expiry_index[i].0 <= now {
                let ghost before = topics@;
                topics.push(self.expiry_index[i].1.clone());
                proof {
                    assert(topics@[before.len() as int]@ == ix[i as int].1@);
                    assert forall|q: int| 0 <= q < topics@.len() implies expired_entry(
                        ix,
                        now,
                        (#[trigger] topics@[q])@,
                    ) by {
                        if q < before.len() {
                            assert(topics@[q] == before[q]);
                        } else {
                            assert(ix[i as int].0 <= now && ix[i as int].1@ == topics@[q]@);
                        }
                    }
                    assert forall|a: int|
                        0 <= a < i + 1 && (#[trigger] ix[a]).0 <= now implies exists|q: int|
                        0 <= q < topics@.len() && topics@[q]@ == ix[a].1@ by {
                        if a < i {
                            let q = choose|q: int| 0 <= q < before.len() && before[q]@ == ix[a].1@;
                            assert(topics@[q] == before[q]);
                        }
                    }
                }
            }
            i = i + 1;
        }
        let ghost m0 = self@;
        let ghost root0 = self.root;
        proof {
            assert forall|t: Seq<Seq<char>>| m0.contains_key(t) && expired(m0[t], now) implies exists|
                q: int,
            | 0 <= q < topics@.len() && levels((#[trigger] topics@[q])@) == t by {
                assert(stored(root0, t) matches Some(m) && m.expiry_at is Some);
                let a = choose|a: int| 0 <= a < ix.len() && levels(#[trigger] ix[a].1@) == t;
                assert(stored(root0, levels(ix[a].1@)) matches Some(m) && m.expiry_at == Some(
                    ix[a].0,
                ));
                assert(ix[a].0 <= now);
                let q = choose|q: int| 0 <= q < topics@.len() && topics@[q]@ == ix[a].1@;
            }
            assert forall|q: int| 0 <= q < topics@.len() implies m0.contains_key(
                levels((#[trigger] topics@[q])@),
            ) && expired(m0[levels(topics@[q]@)], now) by {
                assert(expired_entry(ix, now, topics@[q]@));
                let a = choose|a: int| 0 <= a < ix.len() && ix[a].0 <= now && ix[a].1@ == topics@[q]@;
                assert(stored(root0, levels(ix[a].1@)) matches Some(m) && m.expiry_at == Some(
                    ix[a].0,
                ));
            }
        }
        let mut j: usize = 0;
        while j < topics.len()
            invariant
                self.wf(),
                j <= topics@.len(),
                self@ == m0.remove_keys(
                    Set::new(|t: Seq<Seq<char>>| exists|q: int| 0 <= q < j && levels((#[trigger] topics@[q])@) == t),
                ),
            decreases topics@.len() - j,
        {
            self.remove(topics[j].as_str());
            assert(self@ =~= m0.remove_keys(
                Set::new(|t: Seq<Seq<char>>| exists|q: int| 0 <= q < j + 1 && levels((#[trigger] topics@[q])@) == t),
            ));
            j = j + 1;
        }
        assert(self@ =~= unexpired(m0, now));
    }

    /// Drops the messages that have expired by the clock's reading of now.
    pub fn purge_expired(&mut self)
        requires
            old(self).wf(),
        ensures
            final(self).wf(),
            exists|now: u64| final(self)@ == unexpired(old(self)@, now),
    {
        let now = now_secs();
        self.purge_expired_at(now);
    }
}

/// A message retained on a topic is found by that topic used as a filter: after
/// `insert(topic, msg)`, `find_matches_for_filter(topic)` lists `msg` (the topic is in
/// the trie and matches itself).
pub proof fn lemma_retained_found_by_topic(
    m: Map<Seq<Seq<char>>, RetainedMessage>,
    topic: Seq<char>,
    msg: RetainedMessage,
)
    ensures
        m.insert(levels(topic), msg).contains_key(levels(topic)),
        m.insert(levels(topic), msg)[levels(topic)] == msg,
        filter_matches(levels(topic), levels(topic)),
{
    lemma_topic_matches_itself(levels(topic));
}

/// Purging keeps every message without an expiry time, and purging again at the
/// same moment changes nothing.
pub proof fn lemma_purge_once(m: Map<Seq<Seq<char>>, RetainedMessage>, now: u64)
    ensures
        forall|t: Seq<Seq<char>>|
            m.contains_key(t) && m[t].expiry_at is None ==> #[trigger] unexpired(m, now).contains_key(t),
        unexpired(unexpired(m, now), now) == unexpired(m, now),
{
    assert(unexpired(unexpired(m, now), now) =~= unexpired(m, now));
}

} // verus!
