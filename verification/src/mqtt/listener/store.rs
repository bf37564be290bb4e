//! The messages of one client that await acknowledgement: those sent to it (in
//! flight, or waiting for room) and the QoS 2 messages received from it.
use vstd::prelude::*;
use vstd::std_specs::iter::IteratorSpec;

use std::collections::HashMap;

use super::super::protocol::publish::{Publish, PublishView};
use crate::clock::now_secs;

verus! {

broadcast use vstd::std_specs::hash::group_hash_axioms;

/// The keys of a map, each once.
fn keys_of<V>(m: &HashMap<u16, V>) -> (r: Vec<u16>)
    ensures
        r@.to_set() == m@.dom(),
        r@.no_duplicates(),
{
    let ghost ks = m.keys().remaining();
    let mut out: Vec<u16> = Vec::new();
    for k in it: m.keys()
        invariant
            it.seq() == ks,
            out@.len() == it.index(),
            forall|i: int| 0 <= i < it.index() ==> out@[i] == *ks[i],
    {
        out.push(*k);
    }
    assert(out@ =~= ks.unref());
    assert(out@.no_duplicates()) by {
        assert forall|i: int, j: int| 0 <= i < j < out@.len() implies out@[i] != out@[j] by {
            assert(ks[i] != ks[j]);
        }
    }
    out
}

/// The elements of a sequence with one more element pushed are the old ones and it.
proof fn lemma_push_to_set(t0: Seq<u16>, k: u16)
    ensures
        t0.push(k).to_set() == t0.to_set().insert(k),
{
    let t1 = t0.push(k);
    assert forall|x: u16| t1.contains(x) <==> (t0.contains(x) || x == k) by {
        if t1.contains(x) {
            let j = choose|j: int| 0 <= j < t1.len() && t1[j] == x;
            if j < t0.len() {
                assert(t0[j] == x);
            }
        }
        if t0.contains(x) {
            let j = choose|j: int| 0 <= j < t0.len() && t0[j] == x;
            assert(t1[j] == x);
        }
        if x == k {
            assert(t1[t0.len() as int] == k);
        }
    }
    assert(t1.to_set() =~= t0.to_set().insert(k));
}

/// Puts every entry of `src` into `dst`, in place of an entry of the same key.
fn merge_into<V>(dst: &mut HashMap<u16, V>, src: HashMap<u16, V>)
    ensures
        final(dst)@ == old(dst)@.union_prefer_right(src@),
{
    let mut src = src;
    let ghost s0 = src@;
    let keys = keys_of(&src);
    let mut i: usize = 0;
    while i < keys.len()
        invariant
            i <= keys@.len(),
            keys@.to_set() == s0.dom(),
            keys@.no_duplicates(),
            forall|j: int| i <= j < keys@.len() ==> src@.contains_key(#[trigger] keys@[j]),
            forall|k: u16| #[trigger] src@.contains_key(k) ==> s0.contains_key(k) && src@[k] == s0[k],
            dst@ == old(dst)@.union_prefer_right(s0.restrict(keys@.take(i as int).to_set())),
        decreases keys.len() - i,
    {
        let k = keys[i];
        assert(keys@.contains(k));
        let ghost before = src@;
        let ghost dbefore = dst@;
        match src.remove(&k) {
            Some(v) => {
                assert(v == s0[k]);
                dst.insert(k, v);
            },
            None => {
                assert(false);
            },
        }
        assert forall|j: int| i + 1 <= j < keys@.len() implies src@.contains_key(#[trigger] keys@[j]) by {
            assert(keys@[j] != keys@[i as int]);
            assert(before.contains_key(keys@[j]));
        }
        proof {
            lemma_push_to_set(keys@.take(i as int), k);
            assert(keys@.take(i + 1) =~= keys@.take(i as int).push(k));
        }
        assert(dst@ =~= old(dst)@.union_prefer_right(s0.restrict(keys@.take(i + 1).to_set())));
        i = i + 1;
    }
    assert(keys@.take(keys@.len() as int) =~= keys@);
    assert(s0.restrict(s0.dom()) =~= s0);
}

/// The view of an optional message.
pub open spec fn opt_publish(m: Option<Publish>) -> Option<PublishView> {
    match m {
        Some(p) => Some(p@),
        None => None,
    }
}

/// The messages of one client that await acknowledgement.
pub struct Store {
    backup_store: Vec<Publish>,
    inflight_size: usize,
    inflight_store: HashMap<u16, (u64, Option<Publish>)>,
    qos2_size: usize,
    qos2_recv_store: HashMap<u16, Option<Publish>>,
}

/// A store as plain values.
pub struct StoreView {
    /// messages waiting for room in flight, oldest first
    pub backup: Seq<PublishView>,
    /// how many messages may be in flight
    pub inflight_size: usize,
    /// by packet identifier: when the message was last sent, and the message (none
    /// once the client has received it at QoS 2)
    pub inflight: Map<u16, (u64, Option<PublishView>)>,
    /// how many QoS 2 messages from the client may await release
    pub qos2_size: usize,
    /// by packet identifier: the QoS 2 messages from the client that await release
    pub qos2: Map<u16, Option<PublishView>>,
}

impl View for Store {
    type V = StoreView;

    closed spec fn view(&self) -> StoreView {
        StoreView {
            backup: self.backup_store@.map_values(|p: Publish| p@),
            inflight_size: self.inflight_size,
            inflight: self.inflight_store@.map_values(
                |e: (u64, Option<Publish>)| (e.0, opt_publish(e.1)),
            ),
            qos2_size: self.qos2_size,
            qos2: self.qos2_recv_store@.map_values(|m: Option<Publish>| opt_publish(m)),
        }
    }
}

/// Whether the message stored under `k` is due to be sent again at `now`.
pub open spec fn is_due(s: StoreView, k: u16, now: u64, resend_interval: u64) -> bool {
    s.inflight.contains_key(k) && s.inflight[k].0 + resend_interval < now
}

/// What acknowledging (or completing) packet `pkid` does: the packet leaves the
/// flight, and when that leaves room the newest waiting message takes its place
/// under the same identifier, as never sent.
pub open spec fn after_ack(s: StoreView, pkid: u16) -> StoreView {
    let inflight = s.inflight.remove(pkid);
    if inflight.len() < s.inflight_size && s.backup.len() > 0 {
        StoreView {
            backup: s.backup.drop_last(),
            inflight: inflight.insert(pkid, (0, Some(s.backup.last()))),
            ..s
        }
    } else {
        StoreView { inflight, ..s }
    }
}

impl Store {
    /// An empty store that lets `inflight_size` messages be in flight and
    /// `qos2_size` QoS 2 messages await release.
    pub fn new(inflight_size: usize, qos2_size: usize) -> (r: Self)
        ensures
            r@ == (StoreView {
                backup: Seq::empty(),
                inflight_size,
                inflight: Map::empty(),
                qos2_size,
                qos2: Map::empty(),
            }),
            store_wf(r@),
    {
        let r = Store {
            inflight_size,
            qos2_size,
            backup_store: Vec::new(),
            inflight_store: HashMap::new(),
            qos2_recv_store: HashMap::new(),
        };
        assert(r@.backup =~= Seq::<PublishView>::empty());
        assert(r@.inflight =~= Map::<u16, (u64, Option<PublishView>)>::empty());
        assert(r@.qos2 =~= Map::<u16, Option<PublishView>>::empty());
        r
    }

    /// Takes over what `other` holds: its waiting messages after these, its entries in
    /// place of these where both hold a packet identifier.
    pub fn extend(&mut self, other: Store)
        ensures
            final(self)@ == (StoreView {
                backup: old(self)@.backup + other@.backup,
                inflight: old(self)@.inflight.union_prefer_right(other@.inflight),
                qos2: old(self)@.qos2.union_prefer_right(other@.qos2),
                ..old(self)@
            }),
    {
        let mut other = other;
        let ghost ob = other@;
        self.backup_store.append(&mut other.backup_store);
        assert(self.backup_store@.map_values(|p: Publish| p@) =~= old(self)@.backup + ob.backup);
        merge_into(&mut self.inflight_store, other.inflight_store);
        merge_into(&mut self.qos2_recv_store, other.qos2_recv_store);
        assert(self@.inflight =~= old(self)@.inflight.union_prefer_right(ob.inflight));
        assert(self@.qos2 =~= old(self)@.qos2.union_prefer_right(ob.qos2));
    }
}

/// A copy of an optional message.
fn clone_opt(m: &Option<Publish>) -> (r: Option<Publish>)
    ensures
        opt_publish(r) == opt_publish(*m),
{
    match m {
        Some(p) => Some(p.clone()),
        None => None,
    }
}

/// The flight after the messages under `ks` were sent again at `now`.
pub open spec fn resent(
    inflight: Map<u16, (u64, Option<PublishView>)>,
    ks: Seq<u16>,
    now: u64,
) -> Map<u16, (u64, Option<PublishView>)> {
    Map::new(
        |k: u16| inflight.contains_key(k),
        |k: u16|
            if ks.contains(k) {
                (now, inflight[k].1)
            } else {
                inflight[k]
            },
    )
}

/// The packet identifiers of a list of messages.
pub open spec fn ids_of(v: Seq<(u16, Option<Publish>)>) -> Seq<u16> {
    v.map_values(|e: (u16, Option<Publish>)| e.0)
}

impl Store {
    /// How many messages are in flight.
    pub fn inflight_size(&self) -> (r: usize)
        ensures
            r == self@.inflight.len(),
    {
        assert(self@.inflight.dom() =~= self.inflight_store@.dom());
        self.inflight_store.len()
    }

    /// The messages due to be sent again at `now`: those last sent more than
    /// `resend_interval` seconds before, at most as many as may be in flight; they are
    /// marked as sent at `now`. Which due messages come when more are due than fit is
    /// up to the order of the map.
    pub fn get_inflight_messages(&mut self, now: u64, resend_interval: u64) -> (r: Vec<
        (u16, Option<Publish>),
    >)
        requires
            forall|k: u16|
                #[trigger] old(self)@.inflight.contains_key(k) ==> old(self)@.inflight[k].0
                    + resend_interval <= u64::MAX,
        ensures
            r@.len() <= old(self)@.inflight_size,
            ids_of(r@).no_duplicates(),
            forall|j: int|
                0 <= j < r@.len() ==> is_due(old(self)@, #[trigger] r@[j].0, now, resend_interval)
                    && opt_publish(r@[j].1) == old(self)@.inflight[r@[j].0].1,
            r@.len() < old(self)@.inflight_size ==> forall|k: u16|
                is_due(old(self)@, k, now, resend_interval) ==> #[trigger] ids_of(r@).contains(k),
            final(self)@ == (StoreView {
                inflight: resent(old(self)@.inflight, ids_of(r@), now),
                ..old(self)@
            }),
            store_wf(old(self)@) ==> store_wf(final(self)@),
    {
        let ghost s0 = self.inflight_store@;
        let ghost v0 = self@;
        let keys = keys_of(&self.inflight_store);
        assert forall|k: u16| #[trigger] s0.contains_key(k) implies s0[k].0 + resend_interval <= u64::MAX by {
            assert(old(self)@.inflight.contains_key(k));
        }
        let mut msgs: Vec<(u16, Option<Publish>)> = Vec::new();
        let mut i: usize = 0;
        while i < keys.len()
            invariant_except_break
                forall|j: int| 0 <= j < i ==> (#[trigger] s0[keys@[j]]).0 + resend_interval < now ==> ids_of(msgs@).contains(keys@[j]),
            invariant
                i <= keys@.len(),
                keys@.to_set() == s0.dom(),
                keys@.no_duplicates(),
                v0 == old(self)@,
                s0 == old(self).inflight_store@,
                forall|k: u16| #[trigger] s0.contains_key(k) ==> s0[k].0 + resend_interval <= u64::MAX,
                self.backup_store == old(self).backup_store,
                self.inflight_size == old(self).inflight_size,
                self.qos2_size == old(self).qos2_size,
                self.qos2_recv_store == old(self).qos2_recv_store,
                self.inflight_store@.dom() == s0.dom(),
                forall|k: u16|
                    #[trigger] self.inflight_store@.contains_key(k) ==> if ids_of(msgs@).contains(k) {
                        self.inflight_store@[k].0 == now && opt_publish(self.inflight_store@[k].1)
                            == opt_publish(s0[k].1)
                    } else {
                        self.inflight_store@[k] == s0[k]
                    },
                msgs@.len() <= self.inflight_size,
                ids_of(msgs@).no_duplicates(),
                forall|j: int|
                    0 <= j < msgs@.len() ==> s0.contains_key(#[trigger] msgs@[j].0) && s0[msgs@[j].0].0
                        + resend_interval < now && opt_publish(msgs@[j].1) == opt_publish(
                        s0[msgs@[j].0].1,
                    ) && keys@.take(i as int).contains(msgs@[j].0),
            ensures
                msgs@.len() <= self.inflight_size,
                msgs@.len() < self.inflight_size ==> forall|j: int| 0 <= j < keys@.len() ==> (#[trigger] s0[keys@[j]]).0 + resend_interval < now ==> ids_of(msgs@).contains(keys@[j]),
            decreases keys.len() - i,
        {
            let k = keys[i];
            assert(keys@.contains(k));
            assert(!ids_of(msgs@).contains(k)) by {
                if ids_of(msgs@).contains(k) {
                    let j = choose|j: int| 0 <= j < ids_of(msgs@).len() && ids_of(msgs@)[j] == k;
                    assert(keys@.take(i as int).contains(msgs@[j].0));
                    let q = choose|q: int| 0 <= q < i && keys@.take(i as int)[q] == k;
                    assert(keys@[q] == keys@[i as int]);
                }
            }
            let tm = match self.inflight_store.get(&k) {
                Some(e) => e.0,
                None => {
                    assert(false);
                    0
                },
            };
            if tm + resend_interval < now {
                if msgs.len() < self.inflight_size {
                    let e = match self.inflight_store.remove(&k) {
                        Some(e) => e,
                        None => {
                            assert(false);
                            (0, None)
                        },
                    };
                    let ghost before = msgs@;
                    msgs.push((k, clone_opt(&e.1)));
                    self.inflight_store.insert(k, (now, e.1));
                    assert(ids_of(msgs@) =~= ids_of(before).push(k));
                    proof {
                        assert forall|x: u16| ids_of(msgs@).contains(x) <==> (ids_of(before).contains(x) || x == k) by {
                            if ids_of(msgs@).contains(x) {
                                let j = choose|j: int| 0 <= j < ids_of(msgs@).len() && ids_of(msgs@)[j] == x;
                                if j < before.len() {
                                    assert(ids_of(before)[j] == x);
                                }
                            }
                            if ids_of(before).contains(x) {
                                let j = choose|j: int| 0 <= j < ids_of(before).len() && ids_of(before)[j] == x;
                                assert(ids_of(msgs@)[j] == x);
                            }
                            if x == k {
                                assert(ids_of(msgs@)[before.len() as int] == k);
                            }
                        }
                        assert forall|j: int| 0 <= j < msgs@.len() implies keys@.take(i + 1).contains(#[trigger] msgs@[j].0) by {
                            if j < before.len() {
                                let q = choose|q: int| 0 <= q < i && keys@.take(i as int)[q] == msgs@[j].0;
                                assert(keys@.take(i + 1)[q] == msgs@[j].0);
                            } else {
                                assert(keys@.take(i + 1)[i as int] == k);
                            }
                        }
                    }
                } else {
                    break;
                }
            } else {
                proof {
                    assert forall|j: int| 0 <= j < msgs@.len() implies keys@.take(i + 1).contains(#[trigger] msgs@[j].0) by {
                        let q = choose|q: int| 0 <= q < i && keys@.take(i as int)[q] == msgs@[j].0;
                        assert(keys@.take(i + 1)[q] == msgs@[j].0);
                    }
                }
            }
            i = i + 1;
        }
        proof {
            assert forall|k: u16| is_due(old(self)@, k, now, resend_interval) && msgs@.len() < old(self)@.inflight_size implies #[trigger] ids_of(msgs@).contains(k) by {
                assert(s0.contains_key(k));
                assert(keys@.to_set().contains(k));
                let j = choose|j: int| 0 <= j < keys@.len() && keys@[j] == k;
                assert(s0[keys@[j]].0 + resend_interval < now);
            }
            assert(self@.inflight =~= resent(old(self)@.inflight, ids_of(msgs@), now));
            if store_wf(old(self)@) {
                lemma_flight_bounded(old(self)@, arbitrary(), 0, now, ids_of(msgs@));
            }
        }
        msgs
    }
}

/// What the client's receipt of packet `pkid` (PUBREC) at `now` does: if the packet
/// is in flight, its message is dropped and the time is kept.
pub open spec fn after_rec(s: StoreView, pkid: u16, now: u64) -> StoreView {
    if s.inflight.contains_key(pkid) {
        StoreView { inflight: s.inflight.insert(pkid, (now, None)), ..s }
    } else {
        s
    }
}

impl Store {
    /// Acknowledges packet `pkid` (PUBACK), as `after_ack` says.
    pub fn inflight_ack(&mut self, pkid: u16)
        ensures
            final(self)@ == after_ack(old(self)@, pkid),
            store_wf(old(self)@) ==> store_wf(final(self)@),
    {
        self.take_ack(pkid);
        proof {
            if store_wf(old(self)@) {
                lemma_flight_bounded(old(self)@, arbitrary(), pkid, 0, Seq::empty());
            }
        }
    }

    /// Completes packet `pkid` (PUBCOMP), as `after_ack` says.
    pub fn inflight_cmp(&mut self, pkid: u16)
        ensures
            final(self)@ == after_ack(old(self)@, pkid),
            store_wf(old(self)@) ==> store_wf(final(self)@),
    {
        self.take_ack(pkid);
        proof {
            if store_wf(old(self)@) {
                lemma_flight_bounded(old(self)@, arbitrary(), pkid, 0, Seq::empty());
            }
        }
    }

    /// Drops packet `pkid` from the flight and lets the newest waiting message in.
    fn take_ack(&mut self, pkid: u16)
        ensures
            final(self)@ == after_ack(old(self)@, pkid),
    {
        let _ = self.inflight_store.remove(&pkid);
        let ghost removed = self@;
        assert(removed.inflight =~= old(self)@.inflight.remove(pkid));
        assert(removed.inflight.dom() =~= self.inflight_store@.dom());
        if self.inflight_store.len() < self.inflight_size {
            match self.backup_store.pop() {
                Some(msg) => {
                    self.inflight_store.insert(pkid, (0, Some(msg)));
                    assert(self@.backup =~= old(self)@.backup.drop_last());
                    assert(self@.inflight =~= removed.inflight.insert(pkid, (0u64, Some(msg@))));
                },
                None => {},
            }
        }
    }

    /// Marks packet `pkid`, if in flight, as received by the client (PUBREC) at
    /// `now`: its message is dropped and the time is kept.
    pub fn inflight_rec_at(&mut self, pkid: u16, now: u64)
        ensures
            final(self)@ == after_rec(old(self)@, pkid, now),
            store_wf(old(self)@) ==> store_wf(final(self)@),
    {
        proof {
            if store_wf(old(self)@) {
                lemma_flight_bounded(old(self)@, arbitrary(), pkid, now, Seq::empty());
            }
        }
        if self.inflight_store.contains_key(&pkid) {
            self.inflight_store.insert(pkid, (now, None));
            assert(self@.inflight =~= old(self)@.inflight.insert(pkid, (now, None)));
        }
    }

    /// Marks packet `pkid` as received by the client (PUBREC) now, as
    /// `inflight_rec_at` says for some moment before 2^32 seconds after the epoch.
    pub fn inflight_rec(&mut self, pkid: u16)
        ensures
            exists|now: u64| now < 4294967296 && final(self)@ == #[trigger] after_rec(old(self)@, pkid, now),
            store_wf(old(self)@) ==> store_wf(final(self)@),
    {
        let now = now_secs();
        self.inflight_rec_at(pkid, now);
    }

    /// Puts `msg` in flight, marked as a duplicate and sent at `now`, under its packet
    /// identifier (0 if it has none) when there is room, and says so; otherwise puts
    /// it last among the waiting messages.
    pub fn inflight_insert_at(&mut self, msg: Publish, now: u64) -> (r: bool)
        ensures
            r == (old(self)@.inflight.len() < old(self)@.inflight_size),
            final(self)@ == if r {
                StoreView {
                    inflight: old(self)@.inflight.insert(
                        match msg.packet_id {
                            Some(id) => id,
                            None => 0,
                        },
                        (now, Some(PublishView { dup: true, ..msg@ })),
                    ),
                    ..old(self)@
                }
            } else {
                StoreView { backup: old(self)@.backup.push(msg@), ..old(self)@ }
            },
            store_wf(old(self)@) ==> store_wf(final(self)@),
    {
        assert(old(self)@.inflight.dom() =~= self.inflight_store@.dom());
        proof {
            if store_wf(old(self)@) {
                lemma_flight_bounded(old(self)@, msg@, 0, now, Seq::empty());
            }
        }
        let ghost m0 = msg@;
        let mut msg = msg;
        if self.inflight_store.len() < self.inflight_size {
            msg.dup = true;
            assert(msg@ == PublishView { dup: true, ..m0 });
            let id = match msg.packet_id {
                Some(id) => id,
                None => 0,
            };
            let ghost m1 = msg@;
            self.inflight_store.insert(id, (now, Some(msg)));
            assert(self@.inflight =~= old(self)@.inflight.insert(id, (now, Some(m1))));
            true
        } else {
            self.backup_store.push(msg);
            assert(self@.backup =~= old(self)@.backup.push(msg@));
            false
        }
    }
}

/// What putting `msg` in flight at `now` does, as `Store::inflight_insert_at` says.
pub open spec fn after_insert(s: StoreView, msg: PublishView, now: u64) -> StoreView {
    if s.inflight.len() < s.inflight_size {
        StoreView {
            inflight: s.inflight.insert(
                match msg.packet_id {
                    Some(id) => id,
                    None => 0,
                },
                (now, Some(PublishView { dup: true, ..msg })),
            ),
            ..s
        }
    } else {
        StoreView { backup: s.backup.push(msg), ..s }
    }
}

impl Store {
    /// Puts `msg` in flight now, or among the waiting messages, as
    /// `Store::inflight_insert_at` says for some moment before 2^32 seconds after the
    /// epoch.
    pub fn inflight_insert(&mut self, msg: Publish) -> (r: bool)
        ensures
            r == (old(self)@.inflight.len() < old(self)@.inflight_size),
            exists|now: u64|
                now < 4294967296 && final(self)@ == #[trigger] after_insert(old(self)@, msg@, now),
            store_wf(old(self)@) ==> store_wf(final(self)@),
    {
        let now = now_secs();
        let ghost m = msg@;
        let r = self.inflight_insert_at(msg, now);
        assert(self@ == after_insert(old(self)@, m, now));
        r
    }

    /// Whether a QoS 2 message with packet identifier `pkid` awaits release.
    pub fn qos2_contains(&self, pkid: u16) -> (r: bool)
        ensures
            r == self@.qos2.contains_key(pkid),
    {
        self.qos2_recv_store.contains_key(&pkid)
    }

    /// Keeps the QoS 2 message `msg` until it is released, and says whether it is kept:
    /// one with its packet identifier already kept stays as it was; a new one is kept
    /// only while there is room.
    pub fn qos2_insert(&mut self, msg: Publish) -> (r: bool)
        requires
            msg.packet_id is Some,
        ensures
            r == (old(self)@.qos2.contains_key(msg.packet_id->Some_0) || old(self)@.qos2.len()
                < old(self)@.qos2_size),
            final(self)@ == if !old(self)@.qos2.contains_key(msg.packet_id->Some_0)
                && old(self)@.qos2.len() < old(self)@.qos2_size {
                StoreView {
                    qos2: old(self)@.qos2.insert(msg.packet_id->Some_0, Some(msg@)),
                    ..old(self)@
                }
            } else {
                old(self)@
            },
            store_wf(old(self)@) ==> store_wf(final(self)@),
    {
        assert(old(self)@.qos2.dom() =~= self.qos2_recv_store@.dom());
        let id = match msg.packet_id {
            Some(id) => id,
            None => 0,
        };
        proof {
            if store_wf(old(self)@) {
                lemma_flight_bounded(old(self)@, msg@, id, 0, Seq::empty());
            }
        }
        if self.qos2_recv_store.contains_key(&id) {
            return true;
        }
        if self.qos2_recv_store.len() >= self.qos2_size {
            return false;
        }
        let ghost m = msg@;
        self.qos2_recv_store.insert(id, Some(msg));
        assert(self@.qos2 =~= old(self)@.qos2.insert(id, Some(m)));
        true
    }

    /// Releases the QoS 2 message with packet identifier `pkid` (PUBREL): it is no
    /// longer kept, and it is given back if it was kept with its message.
    pub fn qos2_rel(&mut self, pkid: u16) -> (r: Option<Publish>)
        ensures
            opt_publish(r) == if old(self)@.qos2.contains_key(pkid) {
                old(self)@.qos2[pkid]
            } else {
                None
            },
            final(self)@ == (StoreView { qos2: old(self)@.qos2.remove(pkid), ..old(self)@ }),
            store_wf(old(self)@) ==> store_wf(final(self)@),
    {
        proof {
            if store_wf(old(self)@) {
                lemma_flight_bounded(old(self)@, arbitrary(), pkid, 0, Seq::empty());
            }
        }
        let r = match self.qos2_recv_store.remove(&pkid) {
            Some(m) => m,
            None => None,
        };
        assert(self@.qos2 =~= old(self)@.qos2.remove(pkid));
        r
    }
}

/// A store holds no more messages in flight than `inflight_size`, and no more QoS 2
/// messages awaiting release than `qos2_size`.
pub open spec fn store_wf(s: StoreView) -> bool {
    &&& s.inflight.dom().finite()
    &&& s.inflight.len() <= s.inflight_size
    &&& s.qos2.dom().finite()
    &&& s.qos2.len() <= s.qos2_size
}

/// What keeping the QoS 2 message `msg` under `pkid` does, as `Store::qos2_insert` says.
pub open spec fn after_qos2_insert(s: StoreView, pkid: u16, msg: PublishView) -> StoreView {
    if !s.qos2.contains_key(pkid) && s.qos2.len() < s.qos2_size {
        StoreView { qos2: s.qos2.insert(pkid, Some(msg)), ..s }
    } else {
        s
    }
}

/// The store's limits hold whatever is done to it: putting a message in flight,
/// acknowledging or completing one, marking one as received, sending due ones again,
/// keeping a QoS 2 message or releasing one each keep a store within its limits.
pub proof fn lemma_flight_bounded(
    s: StoreView,
    msg: PublishView,
    pkid: u16,
    now: u64,
    ks: Seq<u16>,
)
    requires
        store_wf(s),
    ensures
        store_wf(after_insert(s, msg, now)),
        store_wf(after_ack(s, pkid)),
        store_wf(after_rec(s, pkid, now)),
        store_wf(StoreView { inflight: resent(s.inflight, ks, now), ..s }),
        store_wf(after_qos2_insert(s, pkid, msg)),
        store_wf(StoreView { qos2: s.qos2.remove(pkid), ..s }),
{
    let id = match msg.packet_id {
        Some(x) => x,
        None => 0,
    };
    assert(s.inflight.insert(id, (now, Some(PublishView { dup: true, ..msg }))).dom() =~= s.inflight.dom().insert(id));
    let removed = s.inflight.remove(pkid);
    assert(removed.dom() =~= s.inflight.dom().remove(pkid));
    if s.inflight.contains_key(pkid) {
        assert(s.inflight.insert(pkid, (now, None)).dom() =~= s.inflight.dom());
    }
    assert(removed.insert(pkid, (0, Some(s.backup.last()))).dom() =~= removed.dom().insert(pkid));
    assert(resent(s.inflight, ks, now).dom() =~= s.inflight.dom());
    assert(s.qos2.insert(pkid, Some(msg)).dom() =~= s.qos2.dom().insert(pkid));
    assert(s.qos2.remove(pkid).dom() =~= s.qos2.dom().remove(pkid));
}

/// One thing done to a store, as plain values: what `inflight_insert_at`,
/// `inflight_ack` or `inflight_cmp`, `inflight_rec_at`, `get_inflight_messages`,
/// `qos2_insert` and `qos2_rel` do.
pub enum StoreStep {
    Insert(PublishView, u64),
    Ack(u16),
    Rec(u16, u64),
    Resend(Seq<u16>, u64),
    Qos2Insert(u16, PublishView),
    Qos2Rel(u16),
}

/// The store after `step`.
pub open spec fn apply_step(s: StoreView, step: StoreStep) -> StoreView {
    match step {
        StoreStep::Insert(m, now) => after_insert(s, m, now),
        StoreStep::Ack(pkid) => after_ack(s, pkid),
        StoreStep::Rec(pkid, now) => after_rec(s, pkid, now),
        StoreStep::Resend(ks, now) => StoreView { inflight: resent(s.inflight, ks, now), ..s },
        StoreStep::Qos2Insert(pkid, m) => after_qos2_insert(s, pkid, m),
        StoreStep::Qos2Rel(pkid) => StoreView { qos2: s.qos2.remove(pkid), ..s },
    }
}

/// The store after `steps`, in order.
pub open spec fn run_steps(s: StoreView, steps: Seq<StoreStep>) -> StoreView
    decreases steps.len(),
{
    if steps.len() == 0 {
        s
    } else {
        apply_step(run_steps(s, steps.drop_last()), steps.last())
    }
}

/// However many of these steps are taken, in whatever order, a store that starts
/// within its limits stays within them: never more messages in flight than
/// `inflight_size`, never more QoS 2 messages awaiting release than `qos2_size`, and
/// the limits themselves do not change.
pub proof fn lemma_steps_bounded(s: StoreView, steps: Seq<StoreStep>)
    requires
        store_wf(s),
    ensures
        store_wf(run_steps(s, steps)),
        run_steps(s, steps).inflight_size == s.inflight_size,
        run_steps(s, steps).qos2_size == s.qos2_size,
        run_steps(s, steps).inflight.len() <= s.inflight_size,
        run_steps(s, steps).qos2.len() <= s.qos2_size,
    decreases steps.len(),
{
    if steps.len() > 0 {
        lemma_steps_bounded(s, steps.drop_last());
        let t = run_steps(s, steps.drop_last());
        match steps.last() {
            StoreStep::Insert(m, now) => lemma_flight_bounded(t, m, 0, now, Seq::empty()),
            StoreStep::Ack(pkid) => lemma_flight_bounded(t, arbitrary(), pkid, 0, Seq::empty()),
            StoreStep::Rec(pkid, now) => lemma_flight_bounded(t, arbitrary(), pkid, now, Seq::empty()),
            StoreStep::Resend(ks, now) => lemma_flight_bounded(t, arbitrary(), 0, now, ks),
            StoreStep::Qos2Insert(pkid, m) => lemma_flight_bounded(t, m, pkid, 0, Seq::empty()),
            StoreStep::Qos2Rel(pkid) => lemma_flight_bounded(t, arbitrary(), pkid, 0, Seq::empty()),
        }
    }
}

} // verus!
