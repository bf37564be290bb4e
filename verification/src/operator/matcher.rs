//! The matcher: which subscribers a published message goes to.
use vstd::prelude::*;
use vstd::std_specs::cmp::PartialEqSpecImpl;

use super::command::OperatorCommand;
use super::trie::{covered, removal_key, subscribed, well_placed, ClientId, TopicTrie};
use super::utils::topic_match;
use crate::mqtt::protocol::property::{clone_users, pair_views, PropertyUser};
use crate::mqtt::protocol::publish::{PublishOptions, PublishOptionsView};
use crate::mqtt::protocol::wire::copy_bytes;
use crate::mqtt::{qos_level, QoS};
use crate::processor::message::{Message, MessageView};
use crate::topic::{filter_matches, levels, opt_chars, opt_str_eq, str_eq};

verus! {

/// A subscription as the matcher holds it.
pub struct Subscriber {
    pub client_id: String,
    pub share_group: Option<String>,
    /// the topic filter subscribed to
    pub topic: String,
    pub qos: QoS,
    pub no_local: bool,
    pub subscription_id: Option<u32>,
    pub persist: bool,
}

impl Subscriber {
    /// Whether a message published by `from` goes to this subscriber.
    pub open spec fn reaches(self, from: Seq<char>) -> bool {
        !self.no_local || self.client_id@ != from
    }

    /// A subscriber of `client_id` in `share_group` with no topic filter, QoS 0,
    /// local delivery, no subscription identifier and not kept: what subscribers
    /// are compared by.
    pub fn default(client_id: String, share_group: Option<String>) -> (r: Self)
        ensures
            r.client_id == client_id,
            r.share_group == share_group,
            r.topic@ == Seq::<char>::empty(),
            r.qos == QoS::AtMostOnce,
            !r.no_local,
            r.subscription_id is None,
            !r.persist,
    {
        Subscriber {
            client_id,
            share_group,
            topic: String::new(),
            no_local: false,
            subscription_id: None,
            qos: QoS::AtMostOnce,
            persist: false,
        }
    }

    /// Whether a message published by `client_id` goes to this subscriber: not when
    /// the subscription asked for no local delivery and the message is its own.
    pub fn filter_local(&self, client_id: &str) -> (r: bool)
        ensures
            r == self.reaches(client_id@),
    {
        if self.no_local {
            !str_eq(self.client_id.as_str(), client_id)
        } else {
            true
        }
    }
}

impl Clone for Subscriber {
    fn clone(&self) -> (r: Self)
        ensures
            r == *self,
    {
        Subscriber {
            client_id: self.client_id.clone(),
            share_group: match &self.share_group {
                Some(g) => Some(g.clone()),
                None => None,
            },
            topic: self.topic.clone(),
            qos: self.qos,
            no_local: self.no_local,
            subscription_id: self.subscription_id,
            persist: self.persist,
        }
    }
}

impl PartialEq for Subscriber {
    fn eq(&self, other: &Self) -> (r: bool) {
        str_eq(self.client_id.as_str(), other.client_id.as_str()) && opt_str_eq(
            &self.share_group,
            &other.share_group,
        )
    }
}

impl PartialEqSpecImpl for Subscriber {
    open spec fn obeys_eq_spec() -> bool {
        true
    }

    open spec fn eq_spec(&self, other: &Self) -> bool {
        self.client_id@ == other.client_id@ && opt_chars(self.share_group) == opt_chars(
            other.share_group,
        )
    }
}

impl ClientId for Subscriber {
    open spec fn spec_client_id(&self) -> Seq<char> {
        self.client_id@
    }

    fn client_id(&self) -> (r: &str) {
        self.client_id.as_str()
    }
}

/// A message for one subscriber, and whether its sink is to keep it.
pub struct Delivery {
    pub message: Message,
    pub persist: bool,
}

impl View for Delivery {
    type V = (MessageView, bool);

    open spec fn view(&self) -> (MessageView, bool) {
        (self.message@, self.persist)
    }
}

/// The views of a list of deliveries.
pub open spec fn delivery_views(d: Seq<Delivery>) -> Seq<(MessageView, bool)> {
    Seq::new(d.len(), |i: int| d[i]@)
}

/// What subscriber `s` receives of the message `m`: the message addressed to it, at
/// the lower of the two QoS levels, carrying its subscription identifier.
pub open spec fn delivery_to(s: Subscriber, m: MessageView) -> (MessageView, bool) {
    (
        MessageView {
            client_id: s.client_id@,
            qos: if qos_level(m.qos) <= qos_level(s.qos) {
                m.qos
            } else {
                s.qos
            },
            options: PublishOptionsView { subscription_identifier: s.subscription_id, ..m.options },
            ..m
        },
        s.persist,
    )
}

/// Whether `s` belongs to the share group `g`.
pub open spec fn in_group(s: Subscriber, g: Seq<char>) -> bool {
    opt_chars(s.share_group) == Some(g)
}

/// The share groups of `subs`, each once, in the order they first appear.
pub open spec fn share_groups(subs: Seq<Subscriber>) -> Seq<Seq<char>>
    decreases subs.len(),
{
    if subs.len() == 0 {
        Seq::empty()
    } else {
        let g = share_groups(subs.drop_last());
        match subs.last().share_group {
            Some(n) => if g.contains(n@) {
                g
            } else {
                g.push(n@)
            },
            None => g,
        }
    }
}

/// The test that keeps the members of share group `g`.
pub open spec fn of_group(g: Seq<char>) -> spec_fn(Subscriber) -> bool {
    |s: Subscriber| in_group(s, g)
}

/// The test that keeps the subscribers outside any share group.
pub open spec fn unshared() -> spec_fn(Subscriber) -> bool {
    |s: Subscriber| s.share_group is None
}

/// The test that keeps the subscribers that a message published by `from` goes to.
pub open spec fn reaching(from: Seq<char>) -> spec_fn(Subscriber) -> bool {
    |s: Subscriber| s.reaches(from)
}

/// The shared-subscription counter after `j` more turns, from `next`, wrapping.
pub open spec fn turn(next: usize, j: nat) -> usize
    decreases j,
{
    if j == 0 {
        next
    } else {
        let p = turn(next, (j - 1) as nat);
        if p == usize::MAX {
            0
        } else {
            (p + 1) as usize
        }
    }
}

/// The member of the `j`-th share group of `r` that gets the message: the counter
/// at that turn picks it, round robin.
pub open spec fn picked(r: Seq<Subscriber>, next: usize, j: int) -> Subscriber {
    let m = r.filter(of_group(share_groups(r)[j]));
    m[(turn(next, j as nat) as int) % (m.len() as int)]
}

/// What a message `m` published to the subscribers `l` gives, with the counter at
/// `next`: one delivery to one member of each share group, then one to each
/// subscriber outside the groups, leaving out the subscribers it does not reach.
pub open spec fn deliveries(l: Seq<Subscriber>, next: usize, m: MessageView) -> Seq<
    (MessageView, bool),
> {
    let r = l.filter(reaching(m.client_id));
    Seq::new(share_groups(r).len(), |j: int| delivery_to(picked(r, next, j), m)) + r.filter(
        unshared(),
    ).map_values(|s: Subscriber| delivery_to(s, m))
}

/// The counter after publishing `m` to `l` from `next`: one turn per share group.
pub open spec fn next_after(l: Seq<Subscriber>, next: usize, m: MessageView) -> usize {
    turn(next, share_groups(l.filter(reaching(m.client_id))).len())
}

proof fn lemma_filter_step(s: Seq<Subscriber>, p: spec_fn(Subscriber) -> bool, i: int)
    requires
        0 <= i < s.len(),
    ensures
        s.take(i + 1).filter(p) == if p(s[i]) {
            s.take(i).filter(p).push(s[i])
        } else {
            s.take(i).filter(p)
        },
{
    reveal(Seq::filter);
    assert(s.take(i + 1).drop_last() =~= s.take(i));
}

proof fn lemma_groups_step(s: Seq<Subscriber>, i: int)
    requires
        0 <= i < s.len(),
    ensures
        share_groups(s.take(i + 1)) == match s[i].share_group {
            Some(n) => if share_groups(s.take(i)).contains(n@) {
                share_groups(s.take(i))
            } else {
                share_groups(s.take(i)).push(n@)
            },
            None => share_groups(s.take(i)),
        },
{
    assert(s.take(i + 1).drop_last() =~= s.take(i));
}

/// Each share group of `s` has a member in `s`.
proof fn lemma_group_has_member(s: Seq<Subscriber>, g: Seq<char>)
    requires
        share_groups(s).contains(g),
    ensures
        s.filter(of_group(g)).len() > 0,
    decreases s.len(),
{
    reveal(Seq::filter);
    if s.len() > 0 {
        if share_groups(s.drop_last()).contains(g) {
            lemma_group_has_member(s.drop_last(), g);
        }
    }
}

proof fn lemma_take_all<A>(s: Seq<A>)
    ensures
        s.take(s.len() as int) == s,
{
    assert(s.take(s.len() as int) =~= s);
}

/// Whether `d` is the delivery of `m` to a subscriber among `l` that `m` reaches.
pub open spec fn delivered_within(l: Seq<Subscriber>, m: MessageView, d: (MessageView, bool)) -> bool {
    exists|s: Subscriber| l.contains(s) && s.reaches(m.client_id) && d == delivery_to(s, m)
}

proof fn lemma_in_filter(s: Seq<Subscriber>, p: spec_fn(Subscriber) -> bool, i: int)
    requires
        0 <= i < s.filter(p).len(),
    ensures
        s.contains(s.filter(p)[i]),
        p(s.filter(p)[i]),
{
    s.lemma_filter_pred(p, i);
    assert(s.filter(p).contains(s.filter(p)[i]));
    s.lemma_filter_contains_rev(p, s.filter(p)[i]);
}

/// The share groups listed for `r` are distinct, every share group of a member of `r`
/// is listed, and the delivery of each turn goes to a member of that turn's group:
/// each share group among the subscribers a message reaches gets it exactly once.
pub proof fn lemma_one_per_group(r: Seq<Subscriber>, next: usize)
    ensures
        share_groups(r).no_duplicates(),
        forall|k: int|
            0 <= k < r.len() && r[k].share_group is Some ==> share_groups(r).contains(
                (#[trigger] r[k]).share_group->Some_0@,
            ),
        forall|j: int|
            0 <= j < share_groups(r).len() ==> r.contains(#[trigger] picked(r, next, j))
                && in_group(picked(r, next, j), share_groups(r)[j]),
    decreases r.len(),
{
    if r.len() > 0 {
        lemma_one_per_group(r.drop_last(), next);
        let g = share_groups(r.drop_last());
        assert forall|k: int|
            0 <= k < r.len() && r[k].share_group is Some implies share_groups(r).contains(
                (#[trigger] r[k]).share_group->Some_0@,
            ) by {
            if k < r.len() - 1 {
                assert(r.drop_last()[k] == r[k]);
                assert(g.contains(r[k].share_group->Some_0@));
                let q = choose|q: int| 0 <= q < g.len() && g[q] == r[k].share_group->Some_0@;
                assert(share_groups(r)[q] == g[q]);
            } else {
                if !g.contains(r[k].share_group->Some_0@) {
                    assert(share_groups(r)[g.len() as int] == r[k].share_group->Some_0@);
                }
            }
        }
    }
    assert forall|j: int| 0 <= j < share_groups(r).len() implies r.contains(
        #[trigger] picked(r, next, j),
    ) && in_group(picked(r, next, j), share_groups(r)[j]) by {
        let gj = share_groups(r)[j];
        assert(share_groups(r).contains(gj));
        lemma_group_has_member(r, gj);
        let mg = r.filter(of_group(gj));
        let idx = (turn(next, j as nat) as int) % (mg.len() as int);
        lemma_in_filter(r, of_group(gj), idx);
    }
}

/// A message goes only to subscribers that it reaches: every delivery of `m` to the
/// subscribers `l` is to one of them that did not ask to be spared its own messages
/// or that did not publish it.
pub proof fn lemma_deliveries_reach(l: Seq<Subscriber>, next: usize, m: MessageView)
    ensures
        forall|k: int|
            0 <= k < deliveries(l, next, m).len() ==> delivered_within(
                l,
                m,
                #[trigger] deliveries(l, next, m)[k],
            ),
{
    let r = l.filter(reaching(m.client_id));
    let ng = share_groups(r).len() as int;
    let u = r.filter(unshared());
    lemma_one_per_group(r, next);
    assert forall|k: int| 0 <= k < deliveries(l, next, m).len() implies delivered_within(
        l,
        m,
        #[trigger] deliveries(l, next, m)[k],
    ) by {
        if k < ng {
            let s = picked(r, next, k);
            assert(r.contains(s));
            let q = choose|q: int| 0 <= q < r.len() && r[q] == s;
            lemma_in_filter(l, reaching(m.client_id), q);
            assert(deliveries(l, next, m)[k] == delivery_to(s, m));
        } else {
            let s = u[k - ng];
            lemma_in_filter(r, unshared(), k - ng);
            let q = choose|q: int| 0 <= q < r.len() && r[q] == s;
            lemma_in_filter(l, reaching(m.client_id), q);
            assert(deliveries(l, next, m)[k] == delivery_to(s, m));
        }
    }
}

/// Every subscriber among `l` outside any share group that a message `m` reaches
/// receives it, and each share group of the subscribers it reaches receives it
/// through one of its members.
pub proof fn lemma_all_reached_receive(l: Seq<Subscriber>, next: usize, m: MessageView)
    ensures
        forall|i: int|
            0 <= i < l.len() && (#[trigger] l[i]).reaches(m.client_id) && l[i].share_group is None
                ==> deliveries(l, next, m).contains(delivery_to(l[i], m)),
        forall|i: int|
            0 <= i < l.len() && (#[trigger] l[i]).reaches(m.client_id) && l[i].share_group is Some
                ==> exists|k: int|
                0 <= k < deliveries(l, next, m).len() && deliveries(l, next, m)[k] == delivery_to(
                    picked(l.filter(reaching(m.client_id)), next, k),
                    m,
                ) && in_group(
                    picked(l.filter(reaching(m.client_id)), next, k),
                    l[i].share_group->Some_0@,
                ),
{
    let r = l.filter(reaching(m.client_id));
    let ng = share_groups(r).len() as int;
    let u = r.filter(unshared());
    let d = deliveries(l, next, m);
    lemma_one_per_group(r, next);
    assert forall|i: int|
        0 <= i < l.len() && (#[trigger] l[i]).reaches(m.client_id) && l[i].share_group is None
            implies d.contains(delivery_to(l[i], m)) by {
        l.lemma_filter_contains(reaching(m.client_id), i);
        let q = choose|q: int| 0 <= q < r.len() && r[q] == l[i];
        r.lemma_filter_contains(unshared(), q);
        let w = choose|w: int| 0 <= w < u.len() && u[w] == l[i];
        assert(d[ng + w] == delivery_to(l[i], m));
    }
    assert forall|i: int|
        0 <= i < l.len() && (#[trigger] l[i]).reaches(m.client_id) && l[i].share_group is Some
            implies exists|k: int|
            0 <= k < d.len() && d[k] == delivery_to(picked(r, next, k), m) && in_group(
                picked(r, next, k),
                l[i].share_group->Some_0@,
            ) by {
        l.lemma_filter_contains(reaching(m.client_id), i);
        let q = choose|q: int| 0 <= q < r.len() && r[q] == l[i];
        assert(share_groups(r).contains(r[q].share_group->Some_0@));
        let k = choose|k: int|
            0 <= k < share_groups(r).len() && share_groups(r)[k] == r[q].share_group->Some_0@;
        assert(d[k] == delivery_to(picked(r, next, k), m));
    }
}

/// The subscribers of `l` that a message published by `from` goes to.
fn reached_by(l: &Vec<Subscriber>, from: &str) -> (r: Vec<Subscriber>)
    ensures
        r@ == l@.filter(reaching(from@)),
{
    let mut out: Vec<Subscriber> = Vec::new();
    let mut i: usize = 0;
    while i < l.len()
        invariant
            i <= l.len(),
            out@ == l@.take(i as int).filter(reaching(from@)),
        decreases l.len() - i,
    {
        proof {
            lemma_filter_step(l@, reaching(from@), i as int);
        }
        if l[i].filter_local(from) {
            out.push(l[i].clone());
        }
        i = i + 1;
    }
    proof {
        lemma_take_all(l@);
    }
    out
}

/// The share groups of `r`, each once, in the order they first appear.
fn group_names(r: &Vec<Subscriber>) -> (names: Vec<String>)
    ensures
        names@.map_values(|n: String| n@) == share_groups(r@),
{
    let mut names: Vec<String> = Vec::new();
    let mut i: usize = 0;
    while i < r.len()
        invariant
            i <= r.len(),
            names@.map_values(|n: String| n@) == share_groups(r@.take(i as int)),
        decreases r.len() - i,
    {
        proof {
            lemma_groups_step(r@, i as int);
        }
        match &r[i].share_group {
            Some(g) => {
                let ghost seen = names@.map_values(|n: String| n@);
                let mut k: usize = 0;
                let mut found = false;
                while k < names.len()
                    invariant
                        k <= names.len(),
                        seen == names@.map_values(|n: String| n@),
                        found == exists|q: int| 0 <= q < k && seen[q] == g@,
                    decreases names.len() - k,
                {
                    assert(seen[k as int] == names@[k as int]@);
                    if str_eq(names[k].as_str(), g.as_str()) {
                        found = true;
                    }
                    k = k + 1;
                }
                proof {
                    if seen.contains(g@) {
                        let q = choose|q: int| 0 <= q < seen.len() && seen[q] == g@;
                        assert(found);
                    }
                }
                if !found {
                    names.push(g.clone());
                    assert(names@.map_values(|n: String| n@) =~= seen.push(g@));
                }
            },
            None => {},
        }
        i = i + 1;
    }
    proof {
        lemma_take_all(r@);
    }
    names
}

/// How many members of `r` belong to share group `g`.
fn count_members(r: &Vec<Subscriber>, g: &str) -> (n: usize)
    ensures
        n == r@.filter(of_group(g@)).len(),
{
    let mut n: usize = 0;
    let mut i: usize = 0;
    while i < r.len()
        invariant
            i <= r.len(),
            n == r@.take(i as int).filter(of_group(g@)).len(),
            n <= i,
        decreases r.len() - i,
    {
        proof {
            lemma_filter_step(r@, of_group(g@), i as int);
        }
        match &r[i].share_group {
            Some(x) => {
                if str_eq(x.as_str(), g) {
                    n = n + 1;
                }
            },
            None => {},
        }
        i = i + 1;
    }
    proof {
        lemma_take_all(r@);
    }
    n
}

/// The `idx`-th member of share group `g` in `r`.
fn nth_member<'a>(r: &'a Vec<Subscriber>, g: &str, idx: usize) -> (s: &'a Subscriber)
    requires
        idx < r@.filter(of_group(g@)).len(),
    ensures
        *s == r@.filter(of_group(g@))[idx as int],
{
    let ghost m = r@.filter(of_group(g@));
    let mut c: usize = 0;
    let mut i: usize = 0;
    while i < r.len()
        invariant
            i <= r.len(),
            m == r@.filter(of_group(g@)),
            idx < m.len(),
            c == r@.take(i as int).filter(of_group(g@)).len(),
            c <= idx,
        decreases r.len() - i,
    {
        proof {
            lemma_filter_step(r@, of_group(g@), i as int);
            assert(r@ =~= r@.take(i + 1) + r@.skip(i + 1));
            Seq::filter_distributes_over_add(r@.take(i + 1), r@.skip(i + 1), of_group(g@));
        }
        let hit = match &r[i].share_group {
            Some(x) => str_eq(x.as_str(), g),
            None => false,
        };
        if hit {
            if c == idx {
                assert(r@.take(i + 1).filter(of_group(g@))[idx as int] == r@[i as int]);
                return &r[i];
            }
            c = c + 1;
        }
        i = i + 1;
    }
    proof {
        lemma_take_all(r@);
    }
    &r[0]
}

/// The delivery of the message `m` to subscriber `s`.
fn delivery_for(s: &Subscriber, m: &Message) -> (d: Delivery)
    ensures
        d@ == delivery_to(*s, m@),
{
    let message = Message {
        qos: m.qos.min(s.qos),
        retain: m.retain,
        client_id: s.client_id.clone(),
        topic: m.topic.clone(),
        payload: copy_bytes(m.payload.as_slice()),
        user_properties: clone_users(&m.user_properties),
        options: m.options.clone().with_subscription_identifier(s.subscription_id),
    };
    Delivery { message, persist: s.persist }
}

/// The deliveries of the message `m` to the subscribers `l`, with the shared
/// subscription counter at `next`, and the counter after them.
pub fn deliver_to(l: &Vec<Subscriber>, next: usize, m: &Message) -> (r: (Vec<Delivery>, usize))
    ensures
        delivery_views(r.0@) == deliveries(l@, next, m@),
        r.1 == next_after(l@, next, m@),
{
    let r = reached_by(l, m.client_id.as_str());
    let names = group_names(&r);
    let ghost groups = share_groups(r@);
    let ghost shared = Seq::new(groups.len(), |j: int| delivery_to(picked(r@, next, j), m@));
    let mut out: Vec<Delivery> = Vec::new();
    let mut counter = next;
    let mut j: usize = 0;
    while j < names.len()
        invariant
            j <= names.len(),
            names@.map_values(|n: String| n@) == groups,
            groups == share_groups(r@),
            shared == Seq::new(groups.len(), |j: int| delivery_to(picked(r@, next, j), m@)),
            counter == turn(next, j as nat),
            delivery_views(out@) == shared.take(j as int),
        decreases names.len() - j,
    {
        let g = names[j].as_str();
        assert(g@ == groups[j as int]);
        proof {
            lemma_group_has_member(r@, g@);
        }
        let n = count_members(&r, g);
        let s = nth_member(&r, g, counter % n);
        let d = delivery_for(s, m);
        assert(picked(r@, next, j as int) == *s);
        let ghost before = out@;
        out.push(d);
        assert(delivery_views(out@) =~= delivery_views(before).push(d@));
        assert(delivery_views(out@) =~= shared.take(j + 1));
        counter = if counter == usize::MAX {
            0
        } else {
            counter + 1
        };
        j = j + 1;
    }
    let ghost direct = r@.filter(unshared());
    let mut i: usize = 0;
    while i < r.len()
        invariant
            i <= r.len(),
            names@.len() == groups.len(),
            groups == share_groups(r@),
            shared == Seq::new(groups.len(), |j: int| delivery_to(picked(r@, next, j), m@)),
            direct == r@.filter(unshared()),
            delivery_views(out@) == shared + r@.take(i as int).filter(unshared()).map_values(
                |s: Subscriber| delivery_to(s, m@),
            ),
        decreases r.len() - i,
    {
        proof {
            lemma_filter_step(r@, unshared(), i as int);
        }
        let ghost before = out@;
        let ghost f = |s: Subscriber| delivery_to(s, m@);
        if r[i].share_group.is_none() {
            let d = delivery_for(&r[i], m);
            out.push(d);
            assert(delivery_views(out@) =~= delivery_views(before).push(d@));
            assert(r@.take(i + 1).filter(unshared()).map_values(f) =~= r@.take(i as int).filter(
                unshared(),
            ).map_values(f).push(f(r@[i as int])));
        }
        assert(delivery_views(out@) =~= shared + r@.take(i + 1).filter(unshared()).map_values(
            |s: Subscriber| delivery_to(s, m@),
        ));
        i = i + 1;
    }
    proof {
        lemma_take_all(r@);
        assert(shared.take(names@.len() as int) =~= shared);
    }
    (out, counter)
}

/// The matcher's state: the subscriptions, a cache of the subscribers found for each
/// topic published on, and the counter that takes share groups round robin.
pub struct Matcher {
    trie: TopicTrie<Subscriber>,
    /// the subscribers found for each topic; a list keyed by topic, since vstd gives a
    /// `HashMap` or `BTreeMap` meaning only for keys whose hashing or ordering obeys its
    /// laws, which it states for integers and not for `String`
    cache: Vec<(String, Vec<Subscriber>)>,
    next_index: usize,
}

/// The matcher's state as plain values.
pub struct MatcherView {
    /// the pairs of topic filter (by levels) and subscriber
    pub subscriptions: Set<(Seq<Seq<char>>, Subscriber)>,
    /// the cached subscribers of each topic, in the order the topics were cached
    pub cache: Seq<(Seq<char>, Seq<Subscriber>)>,
    pub next_index: usize,
}

/// The views of the cache entries.
pub open spec fn cache_views(c: Seq<(String, Vec<Subscriber>)>) -> Seq<(Seq<char>, Seq<Subscriber>)> {
    c.map_values(|e: (String, Vec<Subscriber>)| (e.0@, e.1@))
}

impl View for Matcher {
    type V = MatcherView;

    closed spec fn view(&self) -> MatcherView {
        MatcherView {
            subscriptions: self.trie@,
            cache: cache_views(self.cache@),
            next_index: self.next_index,
        }
    }
}

/// The subscribers cached for topic `t`, if any (the last entry for `t`).
pub open spec fn cached(c: Seq<(Seq<char>, Seq<Subscriber>)>, t: Seq<char>) -> Option<Seq<Subscriber>>
    decreases c.len(),
{
    if c.len() == 0 {
        None
    } else if c.last().0 == t {
        Some(c.last().1)
    } else {
        cached(c.drop_last(), t)
    }
}

/// The test that keeps the cache entries of topics that the filter `f` does not
/// match: a new subscription to `f` leaves them as they are.
pub open spec fn unaffected(f: Seq<Seq<char>>) -> spec_fn((Seq<char>, Seq<Subscriber>)) -> bool {
    |e: (Seq<char>, Seq<Subscriber>)| !filter_matches(f, levels(e.0))
}

/// The cache with each list cut down to the subscribers that `keep` keeps, and the
/// entries left empty dropped.
pub open spec fn pruned(c: Seq<(Seq<char>, Seq<Subscriber>)>, keep: spec_fn(Subscriber) -> bool) -> Seq<
    (Seq<char>, Seq<Subscriber>),
>
    decreases c.len(),
{
    if c.len() == 0 {
        c
    } else {
        let rest = pruned(c.drop_last(), keep);
        let l = c.last().1.filter(keep);
        if l.len() > 0 {
            rest.push((c.last().0, l))
        } else {
            rest
        }
    }
}

/// The test that drops the subscription of `cid` in `group` to the filter `topic`.
pub open spec fn not_subscription(cid: Seq<char>, topic: Seq<char>, group: Option<Seq<char>>) -> spec_fn(
    Subscriber,
) -> bool {
    |s: Subscriber| !(s.client_id@ == cid && s.topic@ == topic && opt_chars(s.share_group) == group)
}

/// The test that drops the subscriptions of `cid`.
pub open spec fn not_client(cid: Seq<char>) -> spec_fn(Subscriber) -> bool {
    |s: Subscriber| s.client_id@ != cid
}

/// Whether `a` and `b` are the same subscriber to `==`: same client, same share group.
pub open spec fn same_subscriber(a: Subscriber, b: Subscriber) -> bool {
    a.client_id@ == b.client_id@ && opt_chars(a.share_group) == opt_chars(b.share_group)
}

/// Whether `l` lists the subscribers of `topic` in `subs`: each of them, by `==`,
/// once.
pub open spec fn lists_subscribers(
    subs: Set<(Seq<Seq<char>>, Subscriber)>,
    topic: Seq<char>,
    l: Seq<Subscriber>,
) -> bool {
    &&& forall|k: int| 0 <= k < l.len() ==> subscribed(subs, topic, #[trigger] l[k])
    &&& forall|v: Subscriber|
        subscribed(subs, topic, v) ==> exists|k: int| 0 <= k < l.len() && same_subscriber(#[trigger] l[k], v)
    &&& forall|a: int, b: int| 0 <= a < b < l.len() ==> !same_subscriber(#[trigger] l[a], #[trigger] l[b])
}

/// What publishing `m` does to the matcher `old`, giving `new` and the deliveries
/// `d`: the subscribers are those cached for the topic, or, when none are, those
/// that the subscriptions give, which are then cached unless there are none.
pub open spec fn published(
    old: MatcherView,
    new: MatcherView,
    m: MessageView,
    d: Seq<(MessageView, bool)>,
) -> bool {
    exists|l: Seq<Subscriber>| #[trigger] published_with(old, new, m, d, l)
}

/// What publishing `m` to the subscribers `l` does to the matcher `old`, giving `new`
/// and the deliveries `d`, where `l` is what the cache or the subscriptions give.
pub open spec fn published_with(
    old: MatcherView,
    new: MatcherView,
    m: MessageView,
    d: Seq<(MessageView, bool)>,
    l: Seq<Subscriber>,
) -> bool {
        {
            &&& match cached(old.cache, m.topic) {
                Some(c) => l == c && new.cache == old.cache,
                None => lists_subscribers(old.subscriptions, m.topic, l) && new.cache == if l.len()
                    > 0 {
                    old.cache.push((m.topic, l))
                } else {
                    old.cache
                },
            }
            &&& new.subscriptions == old.subscriptions
            &&& new.next_index == next_after(l, old.next_index, m)
            &&& d == deliveries(l, old.next_index, m)
        }
}

proof fn lemma_cache_step(c: Seq<(String, Vec<Subscriber>)>, i: int)
    requires
        0 <= i < c.len(),
    ensures
        cache_views(c.take(i + 1)) == cache_views(c.take(i)).push((c[i].0@, c[i].1@)),
        cache_views(c.take(i + 1)).drop_last() == cache_views(c.take(i)),
        cache_views(c.take(i + 1)).last() == (c[i].0@, c[i].1@),
{
    assert(cache_views(c.take(i + 1)) =~= cache_views(c.take(i)).push((c[i].0@, c[i].1@)));
}

/// Where the cache holds topic `topic`, if it does.
fn cache_position(cache: &Vec<(String, Vec<Subscriber>)>, topic: &str) -> (r: Option<usize>)
    ensures
        match r {
            Some(i) => i < cache@.len() && cached(cache_views(cache@), topic@) == Some(
                cache@[i as int].1@,
            ),
            None => cached(cache_views(cache@), topic@) is None,
        },
{
    let ghost cv = cache_views(cache@);
    let mut i = cache.len();
    assert(cache@.take(i as int) =~= cache@);
    while i > 0
        invariant
            i <= cache.len(),
            cv == cache_views(cache@),
            cached(cv, topic@) == cached(cache_views(cache@.take(i as int)), topic@),
        decreases i,
    {
        proof {
            lemma_cache_step(cache@, i - 1);
        }
        if str_eq(cache[i - 1].0.as_str(), topic) {
            return Some(i - 1);
        }
        i = i - 1;
    }
    None
}

proof fn lemma_pruned_step(
    c: Seq<(Seq<char>, Seq<Subscriber>)>,
    keep: spec_fn(Subscriber) -> bool,
    i: int,
)
    requires
        0 <= i < c.len(),
    ensures
        pruned(c.take(i + 1), keep) == if c[i].1.filter(keep).len() > 0 {
            pruned(c.take(i), keep).push((c[i].0, c[i].1.filter(keep)))
        } else {
            pruned(c.take(i), keep)
        },
{
    assert(c.take(i + 1).drop_last() =~= c.take(i));
}

proof fn lemma_entry_filter_step(
    c: Seq<(Seq<char>, Seq<Subscriber>)>,
    p: spec_fn((Seq<char>, Seq<Subscriber>)) -> bool,
    i: int,
)
    requires
        0 <= i < c.len(),
    ensures
        c.take(i + 1).filter(p) == if p(c[i]) {
            c.take(i).filter(p).push(c[i])
        } else {
            c.take(i).filter(p)
        },
{
    reveal(Seq::filter);
    assert(c.take(i + 1).drop_last() =~= c.take(i));
}

/// A subscription that ends, or a client whose subscriptions all end.
enum Leaving<'a> {
    Subscription(&'a str, &'a str, &'a Option<String>),
    Client(&'a str),
}

impl<'a> Leaving<'a> {
    spec fn keep(self) -> spec_fn(Subscriber) -> bool {
        match self {
            Leaving::Subscription(cid, topic, group) => not_subscription(cid@, topic@, opt_chars(*group)),
            Leaving::Client(cid) => not_client(cid@),
        }
    }

    fn keeps(&self, s: &Subscriber) -> (r: bool)
        ensures
            r == (self.keep())(*s),
    {
        match self {
            Leaving::Subscription(cid, topic, group) => !(str_eq(s.client_id.as_str(), cid)
                && str_eq(s.topic.as_str(), topic) && opt_str_eq(&s.share_group, group)),
            Leaving::Client(cid) => !str_eq(s.client_id.as_str(), cid),
        }
    }
}

/// The subscribers of `l` that `leaving` keeps.
fn kept(l: &Vec<Subscriber>, leaving: &Leaving) -> (r: Vec<Subscriber>)
    ensures
        r@ == l@.filter(leaving.keep()),
{
    let mut out: Vec<Subscriber> = Vec::new();
    let mut i: usize = 0;
    while i < l.len()
        invariant
            i <= l.len(),
            out@ == l@.take(i as int).filter(leaving.keep()),
        decreases l.len() - i,
    {
        proof {
            lemma_filter_step(l@, leaving.keep(), i as int);
        }
        if leaving.keeps(&l[i]) {
            out.push(l[i].clone());
        }
        i = i + 1;
    }
    proof {
        lemma_take_all(l@);
    }
    out
}

/// Cuts each cached list down to the subscribers that `leaving` keeps, and drops the
/// entries left empty.
fn prune_cache(cache: &mut Vec<(String, Vec<Subscriber>)>, leaving: &Leaving)
    ensures
        cache_views(final(cache)@) == pruned(cache_views(old(cache)@), leaving.keep()),
{
    let mut rest: Vec<(String, Vec<Subscriber>)> = Vec::new();
    std::mem::swap(&mut rest, cache);
    let ghost orig = rest@;
    let ghost ov = cache_views(orig);
    assert(orig.len() == rest.len());
    let mut i: usize = 0;
    while rest.len() > 0
        invariant
            i + rest@.len() == orig.len(),
            orig.len() <= usize::MAX,
            rest@ == orig.skip(i as int),
            ov == cache_views(orig),
            cache_views(cache@) == pruned(ov.take(i as int), leaving.keep()),
        decreases rest.len(),
    {
        let e = rest.remove(0);
        proof {
            assert(e == orig[i as int]);
            assert(rest@ =~= orig.skip(i + 1));
            assert(ov[i as int] == (e.0@, e.1@));
            lemma_pruned_step(ov, leaving.keep(), i as int);
        }
        let l = kept(&e.1, leaving);
        if l.len() > 0 {
            let ghost before = cache@;
            cache.push((e.0, l));
            assert(cache_views(cache@) =~= cache_views(before).push((ov[i as int].0, l@)));
        }
        i = i + 1;
    }
    assert(ov.take(i as int) =~= ov);
}

/// Drops the cache entries of the topics that the filter `filter` matches.
fn invalidate_cache(cache: &mut Vec<(String, Vec<Subscriber>)>, filter: &str)
    ensures
        cache_views(final(cache)@) == cache_views(old(cache)@).filter(unaffected(levels(filter@))),
{
    let mut rest: Vec<(String, Vec<Subscriber>)> = Vec::new();
    std::mem::swap(&mut rest, cache);
    let ghost orig = rest@;
    let ghost ov = cache_views(orig);
    assert(orig.len() == rest.len());
    let mut i: usize = 0;
    while rest.len() > 0
        invariant
            i + rest@.len() == orig.len(),
            orig.len() <= usize::MAX,
            rest@ == orig.skip(i as int),
            ov == cache_views(orig),
            cache_views(cache@) == ov.take(i as int).filter(unaffected(levels(filter@))),
        decreases rest.len(),
    {
        let e = rest.remove(0);
        proof {
            assert(e == orig[i as int]);
            assert(rest@ =~= orig.skip(i + 1));
            assert(ov[i as int] == (e.0@, e.1@));
            lemma_entry_filter_step(ov, unaffected(levels(filter@)), i as int);
        }
        if !topic_match(filter, e.0.as_str()) {
            let ghost before = cache@;
            cache.push(e);
            assert(cache_views(cache@) =~= cache_views(before).push(ov[i as int]));
        }
        i = i + 1;
    }
    assert(ov.take(i as int) =~= ov);
}

/// What subscribing `s` does to the matcher `old`, giving `new`: the subscription is
/// added (not when its filter holds `#` before its last level), and the cached topics
/// that its filter matches are dropped from the cache.
pub open spec fn subscribe_step(old: MatcherView, new: MatcherView, s: Subscriber) -> bool {
    &&& new.cache == old.cache.filter(unaffected(levels(s.topic@)))
    &&& new.subscriptions == if well_placed(levels(s.topic@)) {
        old.subscriptions.insert((levels(s.topic@), s))
    } else {
        old.subscriptions
    }
    &&& new.next_index == old.next_index
}

/// What ending the subscription of `cid` in `group` to the filter `topic` does to the
/// matcher `old`, giving `new`: the subscriptions of that client and group under the
/// filter (cut just after its first `#`) go, and so does the subscription from each
/// cached list, entries left empty with it.
pub open spec fn unsubscribe_step(
    old: MatcherView,
    new: MatcherView,
    cid: Seq<char>,
    group: Option<Seq<char>>,
    topic: Seq<char>,
) -> bool {
    &&& new.cache == pruned(old.cache, not_subscription(cid, topic, group))
    &&& new.subscriptions == old.subscriptions.filter(
        |p: (Seq<Seq<char>>, Subscriber)|
            !(p.0 == removal_key(levels(topic)) && p.1.client_id@ == cid && opt_chars(
                p.1.share_group,
            ) == group),
    )
    &&& new.next_index == old.next_index
}

/// What removing client `cid` does to the matcher `old`, giving `new`: all its
/// subscriptions go, from the subscriptions and from the cache.
pub open spec fn remove_client_step(old: MatcherView, new: MatcherView, cid: Seq<char>) -> bool {
    &&& new.cache == pruned(old.cache, not_client(cid))
    &&& new.subscriptions == old.subscriptions.filter(
        |p: (Seq<Seq<char>>, Subscriber)| p.1.client_id@ != cid,
    )
    &&& new.next_index == old.next_index
}

impl Matcher {
    /// A matcher with no subscriptions and nothing cached.
    pub fn new() -> (m: Self)
        ensures
            m@.subscriptions == Set::<(Seq<Seq<char>>, Subscriber)>::empty(),
            m@.cache == Seq::<(Seq<char>, Seq<Subscriber>)>::empty(),
            m@.next_index == 0,
    {
        let m = Matcher { trie: TopicTrie::new(), cache: Vec::new(), next_index: 0 };
        assert(cache_views(m.cache@) =~= Seq::<(Seq<char>, Seq<Subscriber>)>::empty());
        m
    }

    /// Subscribes `client_id` to the topic filter `topic`; the cached topics that the
    /// filter matches are dropped from the cache.
    pub fn subscribe(
        &mut self,
        client_id: String,
        share_group: Option<String>,
        topic: String,
        qos: QoS,
        no_local: bool,
        subscription_id: Option<u32>,
        persist: bool,
    )
        ensures
            subscribe_step(
                old(self)@,
                final(self)@,
                Subscriber { client_id, share_group, topic, qos, no_local, subscription_id, persist },
            ),
    {
        invalidate_cache(&mut self.cache, topic.as_str());
        let t = topic.clone();
        self.trie.insert(
            t.as_str(),
            Subscriber { client_id, share_group, topic, qos, no_local, subscription_id, persist },
        );
    }

    /// Ends the subscription of `client_id` in `share_group` to the topic filter
    /// `topic`, in the subscriptions (a filter is cut just after its first `#`) and in
    /// the cache.
    pub fn unsubscribe(&mut self, client_id: String, share_group: Option<String>, topic: String)
        ensures
            unsubscribe_step(old(self)@, final(self)@, client_id@, opt_chars(share_group), topic@),
    {
        {
            let leaving = Leaving::Subscription(client_id.as_str(), topic.as_str(), &share_group);
            prune_cache(&mut self.cache, &leaving);
        }
        let probe = Subscriber::default(client_id, share_group);
        self.trie.remove(topic.as_str(), &probe);
        assert(self.trie@ =~= old(self)@.subscriptions.filter(
            |p: (Seq<Seq<char>>, Subscriber)|
                !(p.0 == removal_key(levels(topic@)) && p.1.client_id@ == probe.client_id@
                    && opt_chars(p.1.share_group) == opt_chars(probe.share_group)),
        ));
    }

    /// Ends every subscription of `client_id`, and drops it from the cache.
    pub fn remove_client(&mut self, client_id: String)
        ensures
            remove_client_step(old(self)@, final(self)@, client_id@),
    {
        self.trie.remove_client(client_id.as_str());
        assert(self.trie@ =~= old(self)@.subscriptions.filter(
            |p: (Seq<Seq<char>>, Subscriber)| p.1.client_id@ != client_id@,
        ));
        let leaving = Leaving::Client(client_id.as_str());
        prune_cache(&mut self.cache, &leaving);
    }

    /// The deliveries of a message that `client_id` publishes on `topic`.
    pub fn publish(
        &mut self,
        client_id: String,
        retain: bool,
        qos: QoS,
        topic: String,
        payload: Vec<u8>,
        user_properties: Vec<PropertyUser>,
        options: PublishOptions,
    ) -> (d: Vec<Delivery>)
        ensures
            published(
                old(self)@,
                final(self)@,
                (MessageView {
                    qos,
                    retain,
                    client_id: client_id@,
                    topic: topic@,
                    payload: payload@,
                    user_properties: pair_views(user_properties@),
                    options: options@,
                }),
                delivery_views(d@),
            ),
    {
        let m = Message::new(client_id, topic, qos, retain, payload, user_properties).with_options(
            options,
        );
        match cache_position(&self.cache, m.topic.as_str()) {
            Some(pos) => {
                let ghost l = self.cache@[pos as int].1@;
                let (d, next) = deliver_to(&self.cache[pos].1, self.next_index, &m);
                self.next_index = next;
                assert(published_with(old(self)@, self@, m@, delivery_views(d@), l));
                d
            },
            None => {
                let found = self.trie.find_matches(m.topic.as_str());
                let mut l: Vec<Subscriber> = Vec::new();
                let mut k: usize = 0;
                while k < found.len()
                    invariant
                        k <= found.len(),
                        l@.len() == k,
                        forall|q: int| 0 <= q < k ==> l@[q] == *found@[q],
                    decreases found.len() - k,
                {
                    l.push(found[k].clone());
                    k = k + 1;
                }
                assert(lists_subscribers(self.trie@, m.topic@, l@)) by {
                    assert forall|v: Subscriber| subscribed(self.trie@, m.topic@, v) implies exists|
                        q: int,
                    | 0 <= q < l@.len() && same_subscriber(#[trigger] l@[q], v) by {
                        assert(covered(found@, v));
                        assert(exists|q: int|
                            0 <= q < found@.len() && same_subscriber(*(#[trigger] found@[q]), v));
                        let q = choose|q: int|
                            0 <= q < found@.len() && same_subscriber(*(#[trigger] found@[q]), v);
                        assert(same_subscriber(l@[q], v));
                    }
                }
                let (d, next) = deliver_to(&l, self.next_index, &m);
                self.next_index = next;
                let ghost lv = l@;
                if l.len() > 0 {
                    let ghost before = self.cache@;
                    self.cache.push((m.topic.clone(), l));
                    assert(cache_views(self.cache@) =~= cache_views(before).push((m.topic@, lv)));
                }
                assert(published_with(old(self)@, self@, m@, delivery_views(d@), lv));
                d
            },
        }
    }

    /// Carries out `cmd`, giving the deliveries it makes (only a publication makes
    /// any).
    pub fn process_command(&mut self, cmd: OperatorCommand) -> (d: Vec<Delivery>)
        ensures
            match cmd {
                OperatorCommand::Subscribe {
                    client_id,
                    share_group,
                    topic,
                    qos,
                    no_local,
                    subscription_id,
                    persist,
                } => d@.len() == 0 && subscribe_step(
                    old(self)@,
                    final(self)@,
                    Subscriber {
                        client_id,
                        share_group,
                        topic,
                        qos,
                        no_local,
                        subscription_id,
                        persist,
                    },
                ),
                OperatorCommand::Unsubscribe { client_id, share_group, topic } => d@.len() == 0
                    && unsubscribe_step(
                    old(self)@,
                    final(self)@,
                    client_id@,
                    opt_chars(share_group),
                    topic@,
                ),
                OperatorCommand::RemoveClient { client_id } => d@.len() == 0 && remove_client_step(
                    old(self)@,
                    final(self)@,
                    client_id@,
                ),
                OperatorCommand::Publish {
                    client_id,
                    retain,
                    qos,
                    topic,
                    payload,
                    user_properties,
                    options,
                } => published(
                    old(self)@,
                    final(self)@,
                    (MessageView {
                        qos,
                        retain,
                        client_id: client_id@,
                        topic: topic@,
                        payload: payload@,
                        user_properties: pair_views(user_properties@),
                        options: options@,
                    }),
                    delivery_views(d@),
                ),
            },
    {
        match cmd {
            OperatorCommand::Subscribe {
                client_id,
                share_group,
                topic,
                qos,
                no_local,
                subscription_id,
                persist,
            } => {
                self.subscribe(client_id, share_group, topic, qos, no_local, subscription_id, persist);
                Vec::new()
            },
            OperatorCommand::Unsubscribe { client_id, share_group, topic } => {
                self.unsubscribe(client_id, share_group, topic);
                Vec::new()
            },
            OperatorCommand::RemoveClient { client_id } => {
                self.remove_client(client_id);
                Vec::new()
            },
            OperatorCommand::Publish {
                client_id,
                retain,
                qos,
                topic,
                payload,
                user_properties,
                options,
            } => self.publish(client_id, retain, qos, topic, payload, user_properties, options),
        }
    }
}

/// A new subscription is seen by the next publication on a topic that it matches:
/// after subscribing `s`, no topic that its filter matches is cached, so publishing
/// there looks the subscribers up afresh.
pub proof fn lemma_subscribe_uncaches(old: MatcherView, new: MatcherView, s: Subscriber, t: Seq<char>)
    requires
        subscribe_step(old, new, s),
        filter_matches(levels(s.topic@), levels(t)),
    ensures
        cached(new.cache, t) is None,
{
    lemma_uncached_after_filter(old.cache, levels(s.topic@), t);
}

proof fn lemma_uncached_after_filter(
    c: Seq<(Seq<char>, Seq<Subscriber>)>,
    f: Seq<Seq<char>>,
    t: Seq<char>,
)
    requires
        filter_matches(f, levels(t)),
    ensures
        cached(c.filter(unaffected(f)), t) is None,
    decreases c.len(),
{
    reveal(Seq::filter);
    if c.len() > 0 {
        lemma_uncached_after_filter(c.drop_last(), f, t);
        if unaffected(f)(c.last()) {
            assert(c.filter(unaffected(f)).drop_last() == c.drop_last().filter(unaffected(f)));
        }
    }
}

/// Every subscriber in a cached list of `pruned(c, keep)` is one that `keep` keeps.
proof fn lemma_pruned_keeps(
    c: Seq<(Seq<char>, Seq<Subscriber>)>,
    keep: spec_fn(Subscriber) -> bool,
    t: Seq<char>,
    k: int,
)
    requires
        cached(pruned(c, keep), t) is Some,
        0 <= k < cached(pruned(c, keep), t)->0.len(),
    ensures
        keep(cached(pruned(c, keep), t)->0[k]),
    decreases c.len(),
{
    if c.len() > 0 {
        let l = c.last().1.filter(keep);
        if l.len() > 0 {
            let p = pruned(c, keep);
            assert(p.drop_last() == pruned(c.drop_last(), keep));
            if p.last().0 == t {
                c.last().1.lemma_filter_pred(keep, k);
            } else {
                lemma_pruned_keeps(c.drop_last(), keep, t, k);
            }
        } else {
            lemma_pruned_keeps(c.drop_last(), keep, t, k);
        }
    }
}

/// An ended subscription is in no cached list: after unsubscribing `cid` in `group`
/// from `topic`, no cached subscriber has that client, filter and group.
pub proof fn lemma_unsubscribe_uncaches(
    old: MatcherView,
    new: MatcherView,
    cid: Seq<char>,
    group: Option<Seq<char>>,
    topic: Seq<char>,
    t: Seq<char>,
    k: int,
)
    requires
        unsubscribe_step(old, new, cid, group, topic),
        cached(new.cache, t) is Some,
        0 <= k < cached(new.cache, t)->0.len(),
    ensures
        !(cached(new.cache, t)->0[k].client_id@ == cid && cached(new.cache, t)->0[k].topic@ == topic
            && opt_chars(cached(new.cache, t)->0[k].share_group) == group),
{
    lemma_pruned_keeps(old.cache, not_subscription(cid, topic, group), t, k);
}

/// A removed client is in no cached list.
pub proof fn lemma_remove_client_uncaches(
    old: MatcherView,
    new: MatcherView,
    cid: Seq<char>,
    t: Seq<char>,
    k: int,
)
    requires
        remove_client_step(old, new, cid),
        cached(new.cache, t) is Some,
        0 <= k < cached(new.cache, t)->0.len(),
    ensures
        cached(new.cache, t)->0[k].client_id@ != cid,
{
    lemma_pruned_keeps(old.cache, not_client(cid), t, k);
}

} // verus!
