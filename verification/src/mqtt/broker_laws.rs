//! What the broker's steps promise, over every state: a will goes out exactly when a
//! connection ends without a DISCONNECT of success; a SUBSCRIBE has the router
//! subscribe each new filter with the options asked for; an UNSUBSCRIBE has it drop
//! each filter the session held; a resumed session receives what was kept for it;
//! the clean-up drops exactly the sessions whose expiry interval has passed.
use vstd::prelude::*;

use super::code::ReturnCode;
use super::command::ClientCommandView;
use super::protocol::conn::ConnectView;
use super::protocol::subscribe::{SubscribeOption, SubscribeView, UnsubscribeView};
use super::server::{
    broker_wf, expired_ids, filter_accepted, has_id, kept_sessions, keeps, lookup, on_disconnected,
    on_subscribe, on_tick, remove_actions, share_split, sub_fold, sub_step, subscribed, drop_sub, unsub_fold, unsub_step, on_unsubscribe, on_connect, on_store_msg, qget, qhas, qindex,
    queue_keys, queued, ActionView,
    BrokerView, ClientView,
};

verus! {

/// The session that `lookup` finds carries the identifier asked for.
proof fn lemma_lookup_id(cs: Seq<ClientView>, id: Seq<char>)
    ensures
        lookup(cs, id) matches Some(c) ==> c.client_id == id && cs.contains(c),
{
    if has_id(cs, id) {
        let i = choose|i: int| 0 <= i < cs.len() && (#[trigger] cs[i]).client_id == id;
        assert(cs[i].client_id == id);
    }
}

/// When the connection of a client whose session has the will `w` ends with `code`,
/// the will is published (a `PrepareWill` with `w` for the client) if and only if
/// `code` is not success: a DISCONNECT with reason success drops the will.
pub proof fn lemma_will_unless_goodbye(
    b: BrokerView,
    id: Seq<char>,
    code: ReturnCode,
    now: u64,
    c: ClientView,
    w: super::protocol::will::WillView,
)
    requires
        broker_wf(b),
        lookup(b.clean, id) == Some(c) || (lookup(b.clean, id) is None && lookup(b.store, id)
            == Some(c)),
        c.will == Some(w),
    ensures
        code == ReturnCode::Success ==> forall|k: int|
            0 <= k < on_disconnected(b, id, code, now).1.len() ==> !(
            #[trigger] on_disconnected(b, id, code, now).1[k] is PrepareWill),
        code != ReturnCode::Success ==> on_disconnected(b, id, code, now).1.contains(
            ActionView::PrepareWill { client_id: id, will: w },
        ),
{
    lemma_lookup_id(b.clean, id);
    lemma_lookup_id(b.store, id);
    let acts = on_disconnected(b, id, code, now).1;
    if lookup(b.clean, id) is Some {
        assert(acts[0] is RemoveClient);
        if code != ReturnCode::Success {
            assert(acts[1] == ActionView::PrepareWill { client_id: id, will: w });
        }
    } else {
        if code != ReturnCode::Success {
            assert(acts[0] == ActionView::PrepareWill { client_id: id, will: w });
        }
    }
}

/// The sessions that the clean-up keeps are those it had that it keeps, and the
/// identifiers it forgets are those of the sessions it had that it does not keep.
proof fn lemma_tick_parts(cs: Seq<ClientView>, now: u64)
    ensures
        forall|x: ClientView| #[trigger] kept_sessions(cs, now).contains(x) <==> (cs.contains(x)
            && keeps(x, now)),
        forall|i: int| 0 <= i < cs.len() && !keeps(cs[i], now) ==> #[trigger] expired_ids(cs, now).contains(cs[i].client_id),
        forall|n: Seq<char>| #[trigger] expired_ids(cs, now).contains(n) ==> exists|j: int|
            0 <= j < cs.len() && !keeps(cs[j], now) && (#[trigger] cs[j]).client_id == n,
    decreases cs.len(),
{
    if cs.len() > 0 {
        let p = cs.drop_last();
        lemma_tick_parts(p, now);
        let l = cs.last();
        assert forall|x: ClientView| #[trigger] kept_sessions(cs, now).contains(x) <==> (cs.contains(x)
            && keeps(x, now)) by {
            let r = kept_sessions(p, now);
            assert(cs.contains(x) <==> (p.contains(x) || x == l)) by {
                if cs.contains(x) {
                    let j = choose|j: int| 0 <= j < cs.len() && cs[j] == x;
                    if j < p.len() {
                        assert(p[j] == x);
                        assert(p.contains(x));
                    } else {
                        assert(x == l);
                    }
                }
                if p.contains(x) {
                    let j = choose|j: int| 0 <= j < p.len() && p[j] == x;
                    assert(cs[j] == x);
                }
                if x == l {
                    assert(cs[cs.len() - 1] == x);
                }
            }
            assert(r.contains(x) <==> (p.contains(x) && keeps(x, now)));
            if keeps(l, now) {
                assert(kept_sessions(cs, now) == r.push(l));
                assert(r.push(l).contains(x) <==> (r.contains(x) || x == l)) by {
                    if r.push(l).contains(x) {
                        let j = choose|j: int| 0 <= j < r.push(l).len() && r.push(l)[j] == x;
                        if j < r.len() {
                            assert(r[j] == x);
                        }
                    }
                    if r.contains(x) {
                        let j = choose|j: int| 0 <= j < r.len() && r[j] == x;
                        assert(r.push(l)[j] == x);
                    }
                    assert(r.push(l)[r.len() as int] == l);
                }
            } else {
                assert(kept_sessions(cs, now) == r);
            }
        }
        assert forall|i: int| 0 <= i < cs.len() && !keeps(cs[i], now) implies #[trigger] expired_ids(cs, now).contains(cs[i].client_id) by {
            let r = expired_ids(p, now);
            if i < p.len() {
                assert(p[i] == cs[i]);
                assert(r.contains(p[i].client_id));
                if !keeps(l, now) {
                    let j = choose|j: int| 0 <= j < r.len() && r[j] == cs[i].client_id;
                    assert(r.push(l.client_id)[j] == cs[i].client_id);
                }
            } else {
                assert(r.push(l.client_id)[r.len() as int] == l.client_id);
            }
        }
        assert forall|n: Seq<char>| #[trigger] expired_ids(cs, now).contains(n) implies exists|j: int|
            0 <= j < cs.len() && !keeps(cs[j], now) && (#[trigger] cs[j]).client_id == n by {
            let r = expired_ids(p, now);
            if r.contains(n) {
                let j = choose|j: int| 0 <= j < p.len() && !keeps(p[j], now) && (#[trigger] p[j]).client_id == n;
                assert(cs[j] == p[j]);
            } else {
                assert(!keeps(l, now));
                let e = r.push(l.client_id);
                let j = choose|j: int| 0 <= j < e.len() && e[j] == n;
                if j < r.len() {
                    assert(r[j] == n);
                }
                assert(cs[cs.len() - 1] == l);
            }
        }
    }
}

/// The clean-up at `now` keeps a connected session, and a session whose client is
/// away with a session expiry interval `e` and went away at `d` exactly while
/// `now - d < e`; a session it does not keep is gone, and the router is told to
/// forget its client. A kept session's client is not forgotten.
pub proof fn lemma_tick_expiry(b: BrokerView, now: u64, i: int)
    requires
        broker_wf(b),
        0 <= i < b.store.len(),
    ensures
        ({
            let c = b.store[i];
            let (nb, acts) = on_tick(b, now);
            &&& (c.connected || (c.expiry > 0 && now - c.disconnected_tm < c.expiry)) ==> nb.store.contains(c)
                && !acts.contains(ActionView::RemoveClient { client_id: c.client_id })
            &&& !(c.connected || (c.expiry > 0 && now - c.disconnected_tm < c.expiry)) ==> !has_id(
                nb.store,
                c.client_id,
            ) && acts.contains(ActionView::RemoveClient { client_id: c.client_id })
        }),
{
    let c = b.store[i];
    let (nb, acts) = on_tick(b, now);
    lemma_tick_parts(b.store, now);
    let gone = expired_ids(b.store, now);
    let ra = remove_actions(gone);
    assert(b.store.contains(c));
    if keeps(c, now) {
        assert(nb.store.contains(c));
        if acts.contains(ActionView::RemoveClient { client_id: c.client_id }) {
            let k = choose|k: int| 0 <= k < acts.len() && acts[k] == ActionView::RemoveClient { client_id: c.client_id };
            assert(k < ra.len());
            assert(gone[k] == c.client_id);
            assert(gone.contains(c.client_id));
            let j = choose|j: int| 0 <= j < b.store.len() && !keeps(b.store[j], now) && (#[trigger] b.store[j]).client_id == c.client_id;
            assert(j == i);
        }
    } else {
        assert(gone.contains(c.client_id));
        let k = choose|k: int| 0 <= k < gone.len() && gone[k] == c.client_id;
        assert(acts[k] == ActionView::RemoveClient { client_id: c.client_id });
        if has_id(nb.store, c.client_id) {
            let j = choose|j: int| 0 <= j < nb.store.len() && (#[trigger] nb.store[j]).client_id == c.client_id;
            assert(nb.store.contains(nb.store[j]));
            assert(b.store.contains(nb.store[j]) && keeps(nb.store[j], now));
            let q = choose|q: int| 0 <= q < b.store.len() && b.store[q] == nb.store[j];
            assert(q == i);
        }
    }
}

/// The router subscription that an entry `e` of a SUBSCRIBE from `id` asks for: the
/// entry's share group and filter, with its QoS and no-local option.
pub open spec fn subscription_for(id: Seq<char>, e: (Seq<char>, SubscribeOption), persist: bool) -> ActionView {
    ActionView::Subscribe {
        client_id: id,
        share_group: share_split(e.0).0,
        topic: share_split(e.0).1,
        qos: e.1.qos,
        no_local: e.1.no_local,
        persist,
    }
}

/// Working through the entries of a SUBSCRIBE only adds actions after those there
/// were, and subscribes to no filter but those there were and those of the entries.
proof fn lemma_sub_fold_grows(
    ts: Seq<(Seq<char>, SubscribeOption)>,
    acc: (Seq<(Seq<char>, SubscribeOption)>, Seq<ReturnCode>, Seq<ActionView>),
    id: Seq<char>,
    persist: bool,
    max_len: usize,
)
    ensures
        acc.2.len() <= sub_fold(ts, acc, id, persist, max_len).2.len(),
        forall|k: int| 0 <= k < acc.2.len() ==> #[trigger] sub_fold(ts, acc, id, persist, max_len).2[k] == acc.2[k],
        forall|t: Seq<char>| #[trigger] subscribed(sub_fold(ts, acc, id, persist, max_len).0, t) ==> subscribed(acc.0, t)
            || exists|j: int| 0 <= j < ts.len() && (#[trigger] ts[j]).0 == t,
    decreases ts.len(),
{
    if ts.len() > 0 {
        let p = ts.drop_last();
        lemma_sub_fold_grows(p, acc, id, persist, max_len);
        let a = sub_fold(p, acc, id, persist, max_len);
        let e = ts.last();
        assert forall|t: Seq<char>| #[trigger] subscribed(sub_fold(ts, acc, id, persist, max_len).0, t) implies subscribed(acc.0, t)
            || exists|j: int| 0 <= j < ts.len() && (#[trigger] ts[j]).0 == t by {
            let r = sub_fold(ts, acc, id, persist, max_len).0;
            let i = choose|i: int| 0 <= i < r.len() && (#[trigger] r[i]).0 == t;
            if i < a.0.len() && r[i] == a.0[i] {
                assert(subscribed(a.0, t));
                if !subscribed(acc.0, t) {
                    let j = choose|j: int| 0 <= j < p.len() && (#[trigger] p[j]).0 == t;
                    assert(ts[j] == p[j]);
                }
            } else {
                assert(r == a.0.push(e));
                assert(r[i] == e);
                assert(ts[ts.len() - 1] == e);
            }
        }
    }
}

/// Each entry of a SUBSCRIBE whose filter is accepted, was not subscribed to before
/// and comes first among the entries with that filter has the router subscribe it
/// with the entry's options.
proof fn lemma_sub_fold_subscribes(
    ts: Seq<(Seq<char>, SubscribeOption)>,
    acc: (Seq<(Seq<char>, SubscribeOption)>, Seq<ReturnCode>, Seq<ActionView>),
    id: Seq<char>,
    persist: bool,
    max_len: usize,
    k: int,
)
    requires
        0 <= k < ts.len(),
        filter_accepted(ts[k].0, max_len),
        !subscribed(acc.0, ts[k].0),
        forall|j: int| 0 <= j < k ==> (#[trigger] ts[j]).0 != ts[k].0,
    ensures
        sub_fold(ts, acc, id, persist, max_len).2.contains(subscription_for(id, ts[k], persist)),
    decreases ts.len(),
{
    let p = ts.drop_last();
    let a = sub_fold(p, acc, id, persist, max_len);
    let r = sub_fold(ts, acc, id, persist, max_len);
    lemma_sub_fold_grows(p, acc, id, persist, max_len);
    if k < ts.len() - 1 {
        assert(p[k] == ts[k]);
        assert forall|j: int| 0 <= j < k implies (#[trigger] p[j]).0 != p[k].0 by {
            assert(p[j] == ts[j]);
        }
        lemma_sub_fold_subscribes(p, acc, id, persist, max_len, k);
        let q = choose|q: int| 0 <= q < a.2.len() && a.2[q] == subscription_for(id, ts[k], persist);
        assert(r == sub_step(a, id, persist, ts.last(), max_len));
        assert(r.2[q] == a.2[q]);
    } else {
        let e = ts[k];
        assert(e == ts.last());
        if subscribed(a.0, e.0) {
            if !subscribed(acc.0, e.0) {
                let j = choose|j: int| 0 <= j < p.len() && (#[trigger] p[j]).0 == e.0;
                assert(ts[j] == p[j]);
            }
        }
        assert(!subscribed(a.0, e.0));
        assert(r.2 == a.2.push(subscription_for(id, e, persist)));
        assert(r.2[a.2.len() as int] == subscription_for(id, e, persist));
    }
}

/// A SUBSCRIBE from a client with a session has the router subscribe the client, for
/// each entry whose filter is accepted, that the session did not hold yet and that
/// comes first among the entries with that filter, with exactly the QoS and the
/// no-local option that the entry asks for (and in the share group the filter names).
pub proof fn lemma_subscribe_options(
    b: BrokerView,
    id: Seq<char>,
    sv: SubscribeView,
    max_len: usize,
    c: ClientView,
    k: int,
)
    requires
        lookup(b.store, id) == Some(c) || (lookup(b.store, id) is None && lookup(b.clean, id)
            == Some(c)),
        0 <= k < sv.topics.len(),
        filter_accepted(sv.topics[k].0, max_len),
        !subscribed(c.subscribes, sv.topics[k].0),
        forall|j: int| 0 <= j < k ==> (#[trigger] sv.topics[j]).0 != sv.topics[k].0,
    ensures
        on_subscribe(b, id, sv, max_len).2.contains(
            ActionView::Subscribe {
                client_id: id,
                share_group: share_split(sv.topics[k].0).0,
                topic: share_split(sv.topics[k].0).1,
                qos: sv.topics[k].1.qos,
                no_local: sv.topics[k].1.no_local,
                persist: c.expiry > 0,
            },
        ),
{
    lemma_sub_fold_subscribes(sv.topics, (c.subscribes, Seq::empty(), Seq::empty()), id, c.expiry > 0, max_len, k);
}

/// Dropping the subscriptions to `t` leaves those to every other filter.
proof fn lemma_drop_sub(subs: Seq<(Seq<char>, SubscribeOption)>, t: Seq<char>, u: Seq<char>)
    ensures
        subscribed(drop_sub(subs, t), u) <==> (subscribed(subs, u) && u != t),
    decreases subs.len(),
{
    if subs.len() > 0 {
        let p = subs.drop_last();
        lemma_drop_sub(p, t, u);
        let r = drop_sub(p, t);
        let l = subs.last();
        if subscribed(subs, u) && u != t {
            let i = choose|i: int| 0 <= i < subs.len() && (#[trigger] subs[i]).0 == u;
            if i < p.len() {
                assert(p[i] == subs[i]);
                assert(subscribed(p, u));
                let q = choose|q: int| 0 <= q < r.len() && (#[trigger] r[q]).0 == u;
                if l.0 != t {
                    assert(r.push(l)[q] == r[q]);
                }
            } else {
                assert(l.0 == u);
                assert(r.push(l)[r.len() as int] == l);
            }
        }
        if subscribed(drop_sub(subs, t), u) {
            let d = drop_sub(subs, t);
            let i = choose|i: int| 0 <= i < d.len() && (#[trigger] d[i]).0 == u;
            if l.0 != t && i == r.len() {
                assert(d[i] == l);
                assert(subs[subs.len() - 1] == l);
            } else {
                assert(d[i] == r[i]);
                assert(subscribed(r, u));
                let q = choose|q: int| 0 <= q < p.len() && (#[trigger] p[q]).0 == u;
                assert(subs[q] == p[q]);
            }
        }
    }
}

/// Working through the filters of an UNSUBSCRIBE only adds actions after those there
/// were, and leaves subscribed exactly the filters there were that it does not name.
proof fn lemma_unsub_fold_grows(
    ts: Seq<Seq<char>>,
    acc: (Seq<(Seq<char>, SubscribeOption)>, Seq<ActionView>),
    id: Seq<char>,
)
    ensures
        acc.1.len() <= unsub_fold(ts, acc, id).1.len(),
        forall|k: int| 0 <= k < acc.1.len() ==> #[trigger] unsub_fold(ts, acc, id).1[k] == acc.1[k],
        forall|u: Seq<char>| #[trigger] subscribed(unsub_fold(ts, acc, id).0, u) <==> (subscribed(acc.0, u)
            && !ts.contains(u)),
    decreases ts.len(),
{
    if ts.len() > 0 {
        let p = ts.drop_last();
        lemma_unsub_fold_grows(p, acc, id);
        let a = unsub_fold(p, acc, id);
        let t = ts.last();
        assert forall|u: Seq<char>| #[trigger] subscribed(unsub_fold(ts, acc, id).0, u) <==> (subscribed(acc.0, u)
            && !ts.contains(u)) by {
            assert(ts.contains(u) <==> (p.contains(u) || u == t)) by {
                if ts.contains(u) {
                    let j = choose|j: int| 0 <= j < ts.len() && ts[j] == u;
                    if j < p.len() {
                        assert(p[j] == u);
                    }
                }
                if p.contains(u) {
                    let j = choose|j: int| 0 <= j < p.len() && p[j] == u;
                    assert(ts[j] == u);
                }
                if u == t {
                    assert(ts[ts.len() - 1] == u);
                }
            }
            assert(subscribed(a.0, u) <==> (subscribed(acc.0, u) && !p.contains(u)));
            if subscribed(a.0, t) {
                lemma_drop_sub(a.0, t, u);
            }
        }
    }
}

/// Each filter of an UNSUBSCRIBE that the subscriptions held and that comes first
/// among the request's filters equal to it has the router unsubscribe the client.
proof fn lemma_unsub_fold_unsubscribes(
    ts: Seq<Seq<char>>,
    acc: (Seq<(Seq<char>, SubscribeOption)>, Seq<ActionView>),
    id: Seq<char>,
    k: int,
)
    requires
        0 <= k < ts.len(),
        subscribed(acc.0, ts[k]),
        forall|j: int| 0 <= j < k ==> #[trigger] ts[j] != ts[k],
    ensures
        unsub_fold(ts, acc, id).1.contains(
            ActionView::Unsubscribe {
                client_id: id,
                share_group: share_split(ts[k]).0,
                topic: share_split(ts[k]).1,
            },
        ),
    decreases ts.len(),
{
    let p = ts.drop_last();
    let a = unsub_fold(p, acc, id);
    let r = unsub_fold(ts, acc, id);
    let want = ActionView::Unsubscribe {
        client_id: id,
        share_group: share_split(ts[k]).0,
        topic: share_split(ts[k]).1,
    };
    lemma_unsub_fold_grows(p, acc, id);
    assert(r == unsub_step(a, id, ts.last()));
    if k < ts.len() - 1 {
        assert(p[k] == ts[k]);
        assert forall|j: int| 0 <= j < k implies #[trigger] p[j] != p[k] by {
            assert(p[j] == ts[j]);
        }
        lemma_unsub_fold_unsubscribes(p, acc, id, k);
        let q = choose|q: int| 0 <= q < a.1.len() && a.1[q] == want;
        assert(r.1[q] == a.1[q]);
    } else {
        assert(ts[k] == ts.last());
        if p.contains(ts[k]) {
            let j = choose|j: int| 0 <= j < p.len() && p[j] == ts[k];
            assert(ts[j] == p[j]);
        }
        assert(subscribed(a.0, ts[k]));
        assert(r.1 == a.1.push(want));
        assert(r.1[a.1.len() as int] == want);
    }
}

/// Some entry equal to `ts[k]` comes first among those equal to it.
proof fn lemma_first_occurrence(ts: Seq<Seq<char>>, k: int) -> (f: int)
    requires
        0 <= k < ts.len(),
    ensures
        0 <= f <= k,
        ts[f] == ts[k],
        forall|j: int| 0 <= j < f ==> #[trigger] ts[j] != ts[k],
    decreases k,
{
    if exists|j: int| 0 <= j < k && #[trigger] ts[j] == ts[k] {
        let j = choose|j: int| 0 <= j < k && #[trigger] ts[j] == ts[k];
        lemma_first_occurrence(ts, j)
    } else {
        k
    }
}

/// An UNSUBSCRIBE from a client with a session has the router unsubscribe the
/// client from each filter it names that the session held, in the share group the
/// filter names.
pub proof fn lemma_unsubscribe_reaches_router(
    b: BrokerView,
    id: Seq<char>,
    uv: UnsubscribeView,
    c: ClientView,
    k: int,
)
    requires
        lookup(b.store, id) == Some(c) || (lookup(b.store, id) is None && lookup(b.clean, id)
            == Some(c)),
        0 <= k < uv.topics.len(),
        subscribed(c.subscribes, uv.topics[k]),
    ensures
        on_unsubscribe(b, id, uv).2.contains(
            ActionView::Unsubscribe {
                client_id: id,
                share_group: share_split(uv.topics[k]).0,
                topic: share_split(uv.topics[k]).1,
            },
        ),
{
    let f = lemma_first_occurrence(uv.topics, k);
    lemma_unsub_fold_unsubscribes(uv.topics, (c.subscribes, Seq::empty()), id, f);
}

/// A CONNECT that does not start clean ends its actions with the delivery, in order,
/// of every message kept for its client while it was away.
pub proof fn lemma_resume_delivers_kept(b: BrokerView, cv: ConnectView)
    requires
        !cv.clean_start,
    ensures
        ({
            let m = qget(b.msgs, cv.client_id);
            let acts = on_connect(b, cv).2;
            &&& m.len() <= acts.len()
            &&& forall|k: int|
                0 <= k < m.len() ==> #[trigger] acts[acts.len() - m.len() + k] == ActionView::Send {
                    client_id: cv.client_id,
                    command: m[k],
                }
        }),
{
    let m = qget(b.msgs, cv.client_id);
    let acts = on_connect(b, cv).2;
    let sends = m.map_values(|x: ClientCommandView| ActionView::Send { client_id: cv.client_id, command: x });
    assert forall|k: int| 0 <= k < m.len() implies #[trigger] acts[acts.len() - m.len() + k] == ActionView::Send {
        client_id: cv.client_id,
        command: m[k],
    } by {
        assert(acts[acts.len() - m.len() + k] == sends[k]);
    }
}

/// The messages kept for `id` after `m` is kept for it end with `m`.
proof fn lemma_queued_last(
    q: Seq<(Seq<char>, Seq<ClientCommandView>)>,
    id: Seq<char>,
    m: ClientCommandView,
    max: usize,
)
    requires
        queue_keys(q).no_duplicates(),
    ensures
        qget(queued(q, id, m, max), id).len() > 0,
        qget(queued(q, id, m, max), id).last() == m,
{
    let q2 = queued(q, id, m, max);
    if qhas(q, id) {
        let i = qindex(q, id);
        assert(q2[i].0 == id);
        assert(qhas(q2, id));
        let k = qindex(q2, id);
        if k != i {
            assert(queue_keys(q)[k] == q[k].0);
            assert(queue_keys(q)[i] == q[i].0);
            assert(q2[k] == q[k]);
        }
    } else {
        let n = q.len() as int;
        assert(q2[n].0 == id);
        assert(qhas(q2, id));
        let k = qindex(q2, id);
        if k != n {
            assert(q2[k] == q[k]);
            assert(qhas(q, id));
        }
    }
}

/// A message that the router hands the broker for a client that is away from a
/// lasting session is kept, and the client receives it when it comes back without
/// starting clean: it is the last thing the CONNECT sends.
pub proof fn lemma_kept_message_delivered(
    b: BrokerView,
    id: Seq<char>,
    m: ClientCommandView,
    max: usize,
    cv: ConnectView,
)
    requires
        broker_wf(b),
        lookup(b.store, id) matches Some(c) && !c.connected && c.expiry > 0,
        cv.client_id == id,
        !cv.clean_start,
    ensures
        on_connect(on_store_msg(b, id, m, max).0, cv).2.last() == (ActionView::Send {
            client_id: id,
            command: m,
        }),
{
    let b1 = on_store_msg(b, id, m, max).0;
    assert(b1.msgs == queued(b.msgs, id, m, max));
    lemma_queued_last(b.msgs, id, m, max);
    lemma_resume_delivers_kept(b1, cv);
    let ms = qget(b1.msgs, id);
    let acts = on_connect(b1, cv).2;
    assert(acts[acts.len() - ms.len() + (ms.len() - 1)] == ActionView::Send { client_id: id, command: ms[ms.len() - 1] });
}

} // verus!
