//! The router: which processing chains a published message goes through.
use vstd::prelude::*;

use super::chain::{clone_strings, Chain, ChainView, ProcessorChain, ProcessorChainView};
use super::trie::{covered, subscribed, well_placed, TopicTrie};
use crate::config::chain::Chain as ChainConfig;
use crate::config::router::Router as RouteConfig;
use crate::topic::{levels, opt_chars, str_eq, string_views};

verus! {

/// The router's state: the routes, a cache of the routes found for each topic
/// published on, and the processing chains by name.
pub struct Router {
    trie: TopicTrie<Chain>,
    cache: Vec<(String, Vec<Chain>)>,
    chains: Vec<ProcessorChain>,
}

/// The router's state as plain values.
pub struct RouterView {
    /// the pairs of topic filter (by levels) and route
    pub routes: Set<(Seq<Seq<char>>, Chain)>,
    /// the cached routes of each topic, in the order the topics were cached
    pub cache: Seq<(Seq<char>, Seq<ChainView>)>,
    /// the processing chains; of two with one name, the later counts
    pub chains: Seq<ProcessorChainView>,
}

/// The views of a list of routes.
pub open spec fn chain_views(l: Seq<Chain>) -> Seq<ChainView> {
    l.map_values(|c: Chain| c@)
}

/// The views of the cache entries.
pub open spec fn route_cache_views(c: Seq<(String, Vec<Chain>)>) -> Seq<(Seq<char>, Seq<ChainView>)> {
    c.map_values(|e: (String, Vec<Chain>)| (e.0@, chain_views(e.1@)))
}

/// The views of a list of processing chains.
pub open spec fn processor_chain_views(l: Seq<ProcessorChain>) -> Seq<ProcessorChainView> {
    l.map_values(|c: ProcessorChain| c@)
}

impl View for Router {
    type V = RouterView;

    closed spec fn view(&self) -> RouterView {
        RouterView {
            routes: self.trie@,
            cache: route_cache_views(self.cache@),
            chains: processor_chain_views(self.chains@),
        }
    }
}

/// The routes cached for topic `t`, if any (the last entry for `t`).
pub open spec fn cached_routes(c: Seq<(Seq<char>, Seq<ChainView>)>, t: Seq<char>) -> Option<Seq<ChainView>>
    decreases c.len(),
{
    if c.len() == 0 {
        None
    } else if c.last().0 == t {
        Some(c.last().1)
    } else {
        cached_routes(c.drop_last(), t)
    }
}

/// Whether two routes are the same to `==`: same client, same topic filter.
pub open spec fn same_route(a: ChainView, b: ChainView) -> bool {
    a.client_id == b.client_id && a.topic_filter == b.topic_filter
}

/// Whether `v` is a route of `topic` in `routes`.
pub open spec fn is_route_of(routes: Set<(Seq<Seq<char>>, Chain)>, topic: Seq<char>, v: ChainView) -> bool {
    exists|c: Chain| #[trigger] subscribed(routes, topic, c) && c@ == v
}

/// Whether `l` lists the routes of `topic` in `routes`: each of them, by `==`, once.
pub open spec fn lists_routes(routes: Set<(Seq<Seq<char>>, Chain)>, topic: Seq<char>, l: Seq<ChainView>) -> bool {
    &&& forall|k: int| 0 <= k < l.len() ==> is_route_of(routes, topic, #[trigger] l[k])
    &&& forall|c: Chain|
        subscribed(routes, topic, c) ==> exists|k: int| 0 <= k < l.len() && same_route(#[trigger] l[k], c@)
    &&& forall|a: int, b: int| 0 <= a < b < l.len() ==> !same_route(#[trigger] l[a], #[trigger] l[b])
}

/// Whether a route applies to messages from `cid`: it names no client, or names
/// `cid`.
pub open spec fn applies(c: ChainView, cid: Seq<char>) -> bool {
    match c.client_id {
        Some(x) => x == cid,
        None => true,
    }
}

/// The names of the chains that the routes `l` give for messages from `cid`, route
/// by route.
pub open spec fn route_chain_names(l: Seq<ChainView>, cid: Seq<char>) -> Seq<Seq<char>>
    decreases l.len(),
{
    if l.len() == 0 {
        Seq::empty()
    } else {
        route_chain_names(l.drop_last(), cid) + if applies(l.last(), cid) {
            l.last().chains
        } else {
            Seq::empty()
        }
    }
}

/// The processing chain named `n`, if any (the last of that name).
pub open spec fn chain_named(pcs: Seq<ProcessorChainView>, n: Seq<char>) -> Option<ProcessorChainView>
    decreases pcs.len(),
{
    if pcs.len() == 0 {
        None
    } else if pcs.last().name == n {
        Some(pcs.last())
    } else {
        chain_named(pcs.drop_last(), n)
    }
}

/// The processing chains named in `names`, in order, leaving out unknown names.
pub open spec fn chains_named(names: Seq<Seq<char>>, pcs: Seq<ProcessorChainView>) -> Seq<ProcessorChainView>
    decreases names.len(),
{
    if names.len() == 0 {
        Seq::empty()
    } else {
        chains_named(names.drop_last(), pcs) + match chain_named(pcs, names.last()) {
            Some(c) => seq![c],
            None => Seq::empty(),
        }
    }
}

/// The processing chains that a message from `cid` goes through, by the routes `l`:
/// none when there are none.
pub open spec fn routed(l: Seq<ChainView>, cid: Seq<char>, pcs: Seq<ProcessorChainView>) -> Option<Seq<ProcessorChainView>> {
    let r = chains_named(route_chain_names(l, cid), pcs);
    if r.len() == 0 {
        None
    } else {
        Some(r)
    }
}

/// What finding the chains of a message from `cid` on `topic` does to the router
/// `old`, giving `new` and the result `r`, with `l` the routes that the cache or the
/// routes give; the routes found are cached.
pub open spec fn found_with(
    old: RouterView,
    new: RouterView,
    topic: Seq<char>,
    cid: Seq<char>,
    r: Option<Seq<ProcessorChainView>>,
    l: Seq<ChainView>,
) -> bool {
    &&& match cached_routes(old.cache, topic) {
        Some(c) => l == c && new.cache == old.cache,
        None => lists_routes(old.routes, topic, l) && new.cache == old.cache.push((topic, l)),
    }
    &&& new.routes == old.routes
    &&& new.chains == old.chains
    &&& r == routed(l, cid, old.chains)
}

/// What finding the chains of a message from `cid` on `topic` does to the router
/// `old`, giving `new` and the result `r`: the routes are those cached for the topic,
/// or, when none are, those whose filter matches it, which are then cached.
pub open spec fn found(
    old: RouterView,
    new: RouterView,
    topic: Seq<char>,
    cid: Seq<char>,
    r: Option<Seq<ProcessorChainView>>,
) -> bool {
    exists|l: Seq<ChainView>| #[trigger] found_with(old, new, topic, cid, r, l)
}

/// The views of an optional list of processing chains.
pub open spec fn opt_chain_views(r: Option<Vec<ProcessorChain>>) -> Option<Seq<ProcessorChainView>> {
    match r {
        Some(v) => Some(processor_chain_views(v@)),
        None => None,
    }
}

/// Whether `p` is the filter and route of one of the first `n` configured routes.
pub open spec fn configured(routes: Seq<RouteConfig>, n: int, p: (Seq<Seq<char>>, Chain)) -> bool {
    exists|k: int|
        0 <= k < n && well_placed(levels(routes[k].topic@)) && p.0 == levels(routes[k].topic@)
            && p.1@ == route_of(#[trigger] routes[k])
}

/// The test that keeps the processors in `built`.
pub open spec fn is_built(built: Seq<Seq<char>>) -> spec_fn(Seq<char>) -> bool {
    |p: Seq<char>| built.contains(p)
}

/// The route that a configured route stands for.
pub open spec fn route_of(c: RouteConfig) -> ChainView {
    ChainView { topic_filter: c.topic@, client_id: opt_chars(c.client_id), chains: string_views(c.chain@) }
}

/// The processing chain that a configured chain stands for, with the processors
/// that could not be built left out.
pub open spec fn chain_of(c: ChainConfig, built: Seq<Seq<char>>) -> ProcessorChainView {
    ProcessorChainView {
        name: c.name@,
        processors: string_views(c.processors@).filter(is_built(built)),
        delivery: c.delivery,
    }
}

proof fn lemma_take_all<A>(s: Seq<A>)
    ensures
        s.take(s.len() as int) == s,
{
    assert(s.take(s.len() as int) =~= s);
}

/// Where the cache holds topic `topic`, if it does.
fn route_cache_position(cache: &Vec<(String, Vec<Chain>)>, topic: &str) -> (r: Option<usize>)
    ensures
        match r {
            Some(i) => i < cache@.len() && cached_routes(route_cache_views(cache@), topic@) == Some(
                chain_views(cache@[i as int].1@),
            ),
            None => cached_routes(route_cache_views(cache@), topic@) is None,
        },
{
    let ghost cv = route_cache_views(cache@);
    let mut i = cache.len();
    assert(cache@.take(i as int) =~= cache@);
    while i > 0
        invariant
            i <= cache.len(),
            cv == route_cache_views(cache@),
            cached_routes(cv, topic@) == cached_routes(route_cache_views(cache@.take(i as int)), topic@),
        decreases i,
    {
        assert(route_cache_views(cache@.take(i as int)).drop_last() =~= route_cache_views(
            cache@.take(i - 1),
        ));
        if str_eq(cache[i - 1].0.as_str(), topic) {
            return Some(i - 1);
        }
        i = i - 1;
    }
    None
}

/// The last processing chain of `pcs` named `n`, if any.
fn find_chain_named<'a>(pcs: &'a Vec<ProcessorChain>, n: &str) -> (r: Option<&'a ProcessorChain>)
    ensures
        match r {
            Some(c) => chain_named(processor_chain_views(pcs@), n@) == Some(c@),
            None => chain_named(processor_chain_views(pcs@), n@) is None,
        },
{
    let ghost v = processor_chain_views(pcs@);
    let mut i = pcs.len();
    assert(pcs@.take(i as int) =~= pcs@);
    while i > 0
        invariant
            i <= pcs.len(),
            v == processor_chain_views(pcs@),
            chain_named(v, n@) == chain_named(processor_chain_views(pcs@.take(i as int)), n@),
        decreases i,
    {
        assert(processor_chain_views(pcs@.take(i as int)).drop_last() =~= processor_chain_views(
            pcs@.take(i - 1),
        ));
        if str_eq(pcs[i - 1].name.as_str(), n) {
            return Some(&pcs[i - 1]);
        }
        i = i - 1;
    }
    None
}

/// The names of the chains that the routes `l` give for messages from `cid`.
fn chain_names_for(l: &Vec<Chain>, cid: &str) -> (names: Vec<String>)
    ensures
        string_views(names@) == route_chain_names(chain_views(l@), cid@),
{
    let mut names: Vec<String> = Vec::new();
    let mut i: usize = 0;
    while i < l.len()
        invariant
            i <= l@.len(),
            string_views(names@) == route_chain_names(chain_views(l@.take(i as int)), cid@),
        decreases l@.len() - i,
    {
        assert(chain_views(l@.take(i + 1)).drop_last() =~= chain_views(l@.take(i as int)));
        assert(chain_views(l@.take(i + 1)).last() == l@[i as int]@);
        let ok = match &l[i].client_id {
            Some(x) => str_eq(x.as_str(), cid),
            None => true,
        };
        if ok {
            let more = clone_strings(&l[i].chains);
            let ghost before = names@;
            let mut k: usize = 0;
            while k < more.len()
                invariant
                    k <= more@.len(),
                    string_views(more@) == string_views(l@[i as int].chains@),
                    string_views(names@) == string_views(before) + string_views(more@).take(k as int),
                decreases more@.len() - k,
            {
                let ghost b2 = names@;
                names.push(more[k].clone());
                assert(string_views(names@) =~= string_views(b2).push(more@[k as int]@));
                assert(string_views(more@).take(k + 1) =~= string_views(more@).take(k as int).push(
                    more@[k as int]@,
                ));
                k = k + 1;
            }
            assert(string_views(more@).take(k as int) =~= string_views(more@));
        } else {
            assert(string_views(names@) =~= string_views(names@) + Seq::<Seq<char>>::empty());
        }
        i = i + 1;
    }
    proof {
        lemma_take_all(l@);
    }
    names
}

/// The processing chains named in `names`, in order, leaving out unknown names.
fn chains_by_name(names: &Vec<String>, pcs: &Vec<ProcessorChain>) -> (r: Vec<ProcessorChain>)
    ensures
        processor_chain_views(r@) == chains_named(string_views(names@), processor_chain_views(pcs@)),
{
    let ghost pv = processor_chain_views(pcs@);
    let mut out: Vec<ProcessorChain> = Vec::new();
    let mut i: usize = 0;
    while i < names.len()
        invariant
            i <= names@.len(),
            pv == processor_chain_views(pcs@),
            processor_chain_views(out@) == chains_named(string_views(names@).take(i as int), pv),
        decreases names@.len() - i,
    {
        assert(string_views(names@).take(i + 1).drop_last() =~= string_views(names@).take(i as int));
        assert(string_views(names@).take(i + 1).last() == names@[i as int]@);
        let ghost before = out@;
        match find_chain_named(pcs, names[i].as_str()) {
            Some(c) => {
                out.push(c.clone());
                assert(processor_chain_views(out@) =~= processor_chain_views(before) + seq![c@]);
            },
            None => {
                assert(processor_chain_views(out@) =~= processor_chain_views(before) + Seq::<
                    ProcessorChainView,
                >::empty());
            },
        }
        i = i + 1;
    }
    assert(string_views(names@).take(i as int) =~= string_views(names@));
    out
}

/// The routes whose filter matches `topic`, each once.
fn matching_routes(trie: &TopicTrie<Chain>, topic: &str) -> (l: Vec<Chain>)
    ensures
        lists_routes(trie@, topic@, chain_views(l@)),
{
    let found = trie.find_matches(topic);
    let mut l: Vec<Chain> = Vec::new();
    let mut k: usize = 0;
    while k < found.len()
        invariant
            k <= found.len(),
            l@.len() == k,
            forall|q: int| 0 <= q < k ==> (#[trigger] l@[q])@ == (*found@[q])@,
        decreases found.len() - k,
    {
        l.push(found[k].clone());
        k = k + 1;
    }
    assert forall|q: int| 0 <= q < chain_views(l@).len() implies is_route_of(
        trie@,
        topic@,
        #[trigger] chain_views(l@)[q],
    ) by {
        assert(subscribed(trie@, topic@, *found@[q]));
        assert((*found@[q])@ == chain_views(l@)[q]);
    }
    assert forall|c: Chain| subscribed(trie@, topic@, c) implies exists|q: int|
        0 <= q < chain_views(l@).len() && same_route(#[trigger] chain_views(l@)[q], c@) by {
        assert(covered(found@, c));
        assert(exists|q: int| 0 <= q < found@.len() && same_route((*(#[trigger] found@[q]))@, c@));
        let q = choose|q: int| 0 <= q < found@.len() && same_route((*(#[trigger] found@[q]))@, c@);
        assert(same_route(chain_views(l@)[q], c@));
    }
    assert forall|a: int, b: int| 0 <= a < b < chain_views(l@).len() implies !same_route(
        #[trigger] chain_views(l@)[a],
        #[trigger] chain_views(l@)[b],
    ) by {
        assert(!same_route((*found@[a])@, (*found@[b])@));
    }
    l
}

impl Router {
    /// A router with the routes `routes` and the processing chains `chains`, whose
    /// processors are those of `built` (the processors that could be made).
    pub fn new(routes: &Vec<RouteConfig>, chains: &Vec<ChainConfig>, built: &Vec<String>) -> (r: Self)
        ensures
            forall|p: (Seq<Seq<char>>, Chain)|
                #[trigger] r@.routes.contains(p) ==> configured(routes@, routes@.len() as int, p),
            forall|k: int|
                0 <= k < routes@.len() && well_placed(levels(routes@[k].topic@)) ==> exists|
                    c: Chain,
                | #[trigger] r@.routes.contains((levels(routes@[k].topic@), c)) && c@ == route_of(
                    routes@[k],
                ),
            r@.cache == Seq::<(Seq<char>, Seq<ChainView>)>::empty(),
            r@.chains == chains@.map_values(|c: ChainConfig| chain_of(c, string_views(built@))),
    {
        let mut trie: TopicTrie<Chain> = TopicTrie::new();
        let mut i: usize = 0;
        while i < routes.len()
            invariant
                i <= routes@.len(),
                forall|p: (Seq<Seq<char>>, Chain)|
                    #[trigger] trie@.contains(p) ==> configured(routes@, i as int, p),
                forall|k: int|
                    0 <= k < i && well_placed(levels(routes@[k].topic@)) ==> exists|c: Chain|
                        #[trigger] trie@.contains((levels(routes@[k].topic@), c)) && c@ == route_of(
                            routes@[k],
                        ),
            decreases routes@.len() - i,
        {
            let r = &routes[i];
            let c = Chain {
                topic_filter: r.topic.clone(),
                client_id: match &r.client_id {
                    Some(x) => Some(x.clone()),
                    None => None,
                },
                chains: clone_strings(&r.chain),
            };
            let ghost cv = c;
            let ghost before = trie@;
            trie.insert(r.topic.as_str(), c);
            assert forall|p: (Seq<Seq<char>>, Chain)|
                #[trigger] trie@.contains(p) implies configured(routes@, i + 1, p) by {
                if !before.contains(p) {
                    assert(p.1 == cv);
                    assert(p.1@ == route_of(routes@[i as int]));
                }
            }
            assert forall|k: int|
                0 <= k < i + 1 && well_placed(levels(routes@[k].topic@)) implies exists|c: Chain|
                #[trigger] trie@.contains((levels(routes@[k].topic@), c)) && c@ == route_of(
                    routes@[k],
                ) by {
                if k == i {
                    assert(trie@.contains((levels(routes@[k].topic@), cv)));
                } else {
                    let c = choose|c: Chain|
                        #[trigger] before.contains((levels(routes@[k].topic@), c)) && c@ == route_of(
                            routes@[k],
                        );
                    assert(trie@.contains((levels(routes@[k].topic@), c)));
                }
            }
            i = i + 1;
        }
        let mut pcs: Vec<ProcessorChain> = Vec::new();
        let mut j: usize = 0;
        while j < chains.len()
            invariant
                j <= chains@.len(),
                processor_chain_views(pcs@) == chains@.take(j as int).map_values(
                    |c: ChainConfig| chain_of(c, string_views(built@)),
                ),
            decreases chains@.len() - j,
        {
            let c = &chains[j];
            let ghost keep = is_built(string_views(built@));
            let mut procs: Vec<String> = Vec::new();
            let mut k: usize = 0;
            while k < c.processors.len()
                invariant
                    c == chains@[j as int],
                    j < chains@.len(),
                    keep == is_built(string_views(built@)),
                    k <= c.processors@.len(),
                    string_views(procs@) == string_views(c.processors@).take(k as int).filter(keep),
                decreases c.processors@.len() - k,
            {
                proof {
                    reveal(Seq::filter);
                    assert(string_views(c.processors@).take(k + 1).drop_last() =~= string_views(
                        c.processors@,
                    ).take(k as int));
                }
                let mut m: usize = 0;
                let mut known = false;
                while m < built.len()
                    invariant
                        k < c.processors@.len(),
                        m <= built@.len(),
                        known == exists|q: int| 0 <= q < m && built@[q]@ == c.processors@[k as int]@,
                    decreases built@.len() - m,
                {
                    if str_eq(built[m].as_str(), c.processors[k].as_str()) {
                        known = true;
                    }
                    m = m + 1;
                }
                proof {
                    if keep(c.processors@[k as int]@) {
                        let q = choose|q: int|
                            0 <= q < string_views(built@).len() && string_views(built@)[q]
                                == c.processors@[k as int]@;
                        assert(string_views(built@)[q] == built@[q]@);
                    }
                    if known {
                        let q = choose|q: int| 0 <= q < m && built@[q]@ == c.processors@[k as int]@;
                        assert(string_views(built@)[q] == c.processors@[k as int]@);
                    }
                }
                if known {
                    let ghost b2 = procs@;
                    procs.push(c.processors[k].clone());
                    assert(string_views(procs@) =~= string_views(b2).push(c.processors@[k as int]@));
                }
                k = k + 1;
            }
            assert(string_views(c.processors@).take(k as int) =~= string_views(c.processors@));
            let ghost before = pcs@;
            let pc = ProcessorChain { name: c.name.clone(), processors: procs, delivery: c.delivery };
            assert(pc@ == chain_of(chains@[j as int], string_views(built@)));
            pcs.push(pc);
            assert(processor_chain_views(pcs@) =~= processor_chain_views(before).push(pc@));
            assert(chains@.take(j + 1).map_values(|c: ChainConfig| chain_of(c, string_views(built@)))
                =~= chains@.take(j as int).map_values(
                |c: ChainConfig| chain_of(c, string_views(built@)),
            ).push(chain_of(chains@[j as int], string_views(built@))));
            assert(processor_chain_views(pcs@) =~= chains@.take(j + 1).map_values(
                |c: ChainConfig| chain_of(c, string_views(built@)),
            ));
            j = j + 1;
        }
        assert(chains@.take(j as int) =~= chains@);
        let r = Router { trie, cache: Vec::new(), chains: pcs };
        assert(route_cache_views(r.cache@) =~= Seq::<(Seq<char>, Seq<ChainView>)>::empty());
        assert forall|k: int|
            0 <= k < routes@.len() && well_placed(levels(routes@[k].topic@)) implies exists|c: Chain|
            #[trigger] r@.routes.contains((levels(routes@[k].topic@), c)) && c@ == route_of(
                routes@[k],
            ) by {
            let c = choose|c: Chain|
                #[trigger] r.trie@.contains((levels(routes@[k].topic@), c)) && c@ == route_of(
                    routes@[k],
                );
            assert(r@.routes.contains((levels(routes@[k].topic@), c)));
        }
        r
    }

    /// The processing chains that a message from `client_id` on `topic` goes
    /// through, by the routes cached for the topic or, when none are, by the routes
    /// whose filter matches it (which are then cached); `None` when there are none.
    pub fn find_chain(&mut self, topic: &str, client_id: &str) -> (r: Option<Vec<ProcessorChain>>)
        ensures
            found(old(self)@, final(self)@, topic@, client_id@, opt_chain_views(r)),
    {
        let pos = match route_cache_position(&self.cache, topic) {
            Some(i) => i,
            None => {
                let l = matching_routes(&self.trie, topic);
                let ghost before = self.cache@;
                self.cache.push((topic.to_owned(), l));
                assert(route_cache_views(self.cache@) =~= route_cache_views(before).push(
                    (topic@, chain_views(self.cache@[before.len() as int].1@)),
                ));
                self.cache.len() - 1
            },
        };
        let ghost l = chain_views(self.cache@[pos as int].1@);
        let names = chain_names_for(&self.cache[pos].1, client_id);
        let found = chains_by_name(&names, &self.chains);
        let r = if found.len() == 0 {
            None
        } else {
            Some(found)
        };
        assert(found_with(old(self)@, self@, topic@, client_id@, opt_chain_views(r), l));
        r
    }

    /// The processing chains that a message from `client_id` on `topic` goes
    /// through by the routes whose filter matches it, without the cache; `None` when
    /// there are none.
    pub fn route(&self, topic: &str, client_id: &str) -> (r: Option<Vec<ProcessorChain>>)
        ensures
            exists|l: Seq<ChainView>|
                lists_routes(self@.routes, topic@, l) && #[trigger] routed(l, client_id@, self@.chains)
                    == opt_chain_views(r),
    {
        let l = matching_routes(&self.trie, topic);
        let names = chain_names_for(&l, client_id);
        let found = chains_by_name(&names, &self.chains);
        let r = if found.len() == 0 {
            None
        } else {
            Some(found)
        };
        assert(routed(chain_views(l@), client_id@, self@.chains) == opt_chain_views(r));
        r
    }
}

/// Finding the chains with the cache gives what routing without it gives, when the
/// cache holds nothing for the topic or holds the routes whose filter matches it:
/// the chains that some list of the matching routes (each once) names for the
/// client; afterwards the topic is cached.
pub proof fn lemma_find_chain_routes(
    old: RouterView,
    new: RouterView,
    topic: Seq<char>,
    cid: Seq<char>,
    r: Option<Seq<ProcessorChainView>>,
)
    requires
        found(old, new, topic, cid, r),
        match cached_routes(old.cache, topic) {
            Some(c) => lists_routes(old.routes, topic, c),
            None => true,
        },
    ensures
        exists|l: Seq<ChainView>|
            lists_routes(old.routes, topic, l) && #[trigger] routed(l, cid, old.chains) == r,
        cached_routes(new.cache, topic) is Some,
        new.routes == old.routes,
        new.chains == old.chains,
{
    let l = choose|l: Seq<ChainView>| #[trigger] found_with(old, new, topic, cid, r, l);
    match cached_routes(old.cache, topic) {
        Some(c) => {
            assert(l == c);
        },
        None => {
            assert(new.cache == old.cache.push((topic, l)));
            assert(new.cache.last() == (topic, l));
            assert(cached_routes(new.cache, topic) == Some(l));
        },
    }
    assert(routed(l, cid, old.chains) == r);
}

} // verus!
